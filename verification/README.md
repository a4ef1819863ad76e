# bus_simulation

A minute-by-minute simulation of buses that follow planned routes and pick
up and drop off passengers.

`src/` is the library, written in Verus and verified:

- `dane_out` — stations, buses, the calendar (`Date::next_day`) and the
  clock (`Time::next_minute`), bus events and their one-row table export
  (`TDF`);
- `order` — the order of dates and of times;
- `text` — decimal numerals and appended text;
- `simplestucts` — the simulation input, passengers, and the hourly
  attractiveness of stations;
- `simulsimple` — the timetable (`BusLinesTable`), the station table
  (`StationDataTable`) and the state of a running simulation
  (`SimulationState`): its ticks, served stops and clock;
- `bus_ai`, `passanger_ai` — who leaves, who stays and where passengers may
  go;
- `simulation_tick` — queries on the day's queue of stops;
- `setup_simulation` — repeating the plans once an hour and loading the
  input, with a stable sort of the queue by time;
- `export_logs_mod` — the names and texts of the logs;
- `log_names` — different stops get different log names.

Attractiveness weights are carried by the library as a type parameter and
never computed on. `app/` holds the program: reading the JSON input, the
floating-point choices of the passengers, the loop that drives the
simulation, and writing the logs.
