use vstd::prelude::*;

use crate::dane_out::{BusId, Date, StationId, Time};
use crate::export_logs_mod::event_log_name;
use crate::text::{
    decimal, is_digit, lemma_decimal_injective, lemma_split_numeral, lemma_strip_start,
};

verus! {

/// The end of a log name from its letter `l` on: `l`, the number `n`,
/// and the rest of the name.
spec fn name_part(l: Seq<char>, n: u32, rest: Seq<char>) -> Seq<char> {
    l + (decimal(n as nat) + rest)
}

/// The log name of a stop, grouped from the right.
spec fn log_name_parts(date: Date, time: Time, bus: BusId, station: StationId) -> Seq<char> {
    name_part(
        "y"@,
        date.year,
        name_part(
            "m"@,
            date.month,
            name_part(
                "d"@,
                date.day,
                name_part(
                    "h"@,
                    time.hour,
                    name_part(
                        "m"@,
                        time.minute,
                        name_part("b"@, bus.id_number, name_part("s"@, station.id_number, Seq::empty())),
                    ),
                ),
            ),
        ),
    )
}

proof fn lemma_add_assoc(a: Seq<char>, b: Seq<char>, c: Seq<char>)
    ensures
        (a + b) + c == a + (b + c),
{
    assert((a + b) + c =~= a + (b + c));
}

proof fn lemma_log_name_grouped(date: Date, time: Time, bus: BusId, station: StationId)
    ensures
        event_log_name(date, time, bus, station) == log_name_parts(date, time, bus, station),
{
    let y = decimal(date.year as nat);
    let mo = decimal(date.month as nat);
    let d = decimal(date.day as nat);
    let h = decimal(time.hour as nat);
    let mi = decimal(time.minute as nat);
    let b = decimal(bus.id_number as nat);
    let st = decimal(station.id_number as nat);
    let e = Seq::<char>::empty();
    let r7 = "s"@ + (st + e);
    assert(st + e =~= st);
    let r6 = "b"@ + (b + r7);
    let r5 = "m"@ + (mi + r6);
    let r4 = "h"@ + (h + r5);
    let r3 = "d"@ + (d + r4);
    let r2 = "m"@ + (mo + r3);
    let r1 = "y"@ + (y + r2);
    assert(log_name_parts(date, time, bus, station) == r1);
    let l1 = "y"@ + y;
    let l2 = l1 + "m"@;
    let l3 = l2 + mo;
    let l4 = l3 + "d"@;
    let l5 = l4 + d;
    let l6 = l5 + "h"@;
    let l7 = l6 + h;
    let l8 = l7 + "m"@;
    let l9 = l8 + mi;
    let l10 = l9 + "b"@;
    let l11 = l10 + b;
    let l12 = l11 + "s"@;
    let l13 = l12 + st;
    assert(event_log_name(date, time, bus, station) == l13);
    lemma_add_assoc(l12, st, e);
    lemma_add_assoc(l11, "s"@, st + e);
    lemma_add_assoc(l10, b, r7);
    lemma_add_assoc(l9, "b"@, b + r7);
    lemma_add_assoc(l8, mi, r6);
    lemma_add_assoc(l7, "m"@, mi + r6);
    lemma_add_assoc(l6, h, r5);
    lemma_add_assoc(l5, "h"@, h + r5);
    lemma_add_assoc(l4, d, r4);
    lemma_add_assoc(l3, "d"@, d + r4);
    lemma_add_assoc(l2, mo, r3);
    lemma_add_assoc(l1, "m"@, mo + r3);
    lemma_add_assoc("y"@, y, r2);
}

proof fn lemma_name_part_split(
    l: Seq<char>,
    n1: u32,
    rest1: Seq<char>,
    n2: u32,
    rest2: Seq<char>,
)
    requires
        name_part(l, n1, rest1) == name_part(l, n2, rest2),
        rest1.len() > 0 ==> !is_digit(rest1[0]),
        rest2.len() > 0 ==> !is_digit(rest2[0]),
        rest1.len() > 0 <==> rest2.len() > 0,
    ensures
        n1 == n2,
        rest1 == rest2,
{
    lemma_strip_start(l, decimal(n1 as nat) + rest1, decimal(n2 as nat) + rest2);
    if rest1.len() > 0 {
        lemma_split_numeral(n1 as nat, rest1, n2 as nat, rest2);
    } else {
        assert(decimal(n1 as nat) + rest1 =~= decimal(n1 as nat));
        assert(decimal(n2 as nat) + rest2 =~= decimal(n2 as nat));
        lemma_decimal_injective(n1 as nat, n2 as nat);
    }
}

proof fn lemma_name_part_start(l: Seq<char>, n: u32, rest: Seq<char>)
    requires
        l.len() > 0,
        !is_digit(l[0]),
    ensures
        name_part(l, n, rest).len() > 0,
        !is_digit(name_part(l, n, rest)[0]),
{
}

/// Different stops get different log names: two names are equal exactly
/// when the dates, the times, the bus numbers and the station numbers are.
pub proof fn lemma_log_names_distinct(
    d1: Date,
    t1: Time,
    b1: BusId,
    s1: StationId,
    d2: Date,
    t2: Time,
    b2: BusId,
    s2: StationId,
)
    ensures
        event_log_name(d1, t1, b1, s1) == event_log_name(d2, t2, b2, s2) <==> (d1 == d2 && t1
            == t2 && b1.id_number == b2.id_number && s1.id_number == s2.id_number),
{
    reveal_strlit("m");
    reveal_strlit("d");
    reveal_strlit("h");
    reveal_strlit("b");
    reveal_strlit("s");
    lemma_log_name_grouped(d1, t1, b1, s1);
    lemma_log_name_grouped(d2, t2, b2, s2);
    if event_log_name(d1, t1, b1, s1) == event_log_name(d2, t2, b2, s2) {
        let e = Seq::<char>::empty();
        let s_1 = name_part("s"@, s1.id_number, e);
        let s_2 = name_part("s"@, s2.id_number, e);
        let b_1 = name_part("b"@, b1.id_number, s_1);
        let b_2 = name_part("b"@, b2.id_number, s_2);
        let mi_1 = name_part("m"@, t1.minute, b_1);
        let mi_2 = name_part("m"@, t2.minute, b_2);
        let h_1 = name_part("h"@, t1.hour, mi_1);
        let h_2 = name_part("h"@, t2.hour, mi_2);
        let d_1 = name_part("d"@, d1.day, h_1);
        let d_2 = name_part("d"@, d2.day, h_2);
        let mo_1 = name_part("m"@, d1.month, d_1);
        let mo_2 = name_part("m"@, d2.month, d_2);
        lemma_name_part_start("s"@, s1.id_number, e);
        lemma_name_part_start("s"@, s2.id_number, e);
        lemma_name_part_start("b"@, b1.id_number, s_1);
        lemma_name_part_start("b"@, b2.id_number, s_2);
        lemma_name_part_start("m"@, t1.minute, b_1);
        lemma_name_part_start("m"@, t2.minute, b_2);
        lemma_name_part_start("h"@, t1.hour, mi_1);
        lemma_name_part_start("h"@, t2.hour, mi_2);
        lemma_name_part_start("d"@, d1.day, h_1);
        lemma_name_part_start("d"@, d2.day, h_2);
        lemma_name_part_start("m"@, d1.month, d_1);
        lemma_name_part_start("m"@, d2.month, d_2);
        lemma_name_part_split("y"@, d1.year, mo_1, d2.year, mo_2);
        lemma_name_part_split("m"@, d1.month, d_1, d2.month, d_2);
        lemma_name_part_split("d"@, d1.day, h_1, d2.day, h_2);
        lemma_name_part_split("h"@, t1.hour, mi_1, t2.hour, mi_2);
        lemma_name_part_split("m"@, t1.minute, b_1, t2.minute, b_2);
        lemma_name_part_split("b"@, b1.id_number, s_1, b2.id_number, s_2);
        lemma_name_part_split("s"@, s1.id_number, e, s2.id_number, e);
    }
}

} // verus!
