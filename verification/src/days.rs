//! Clock times and weekday lists as the station writes them.

use vstd::prelude::*;
use vstd::string::*;

use crate::text::{chars_of, code, same_folded, same_text, split, to_lower, trim};
use crate::text;

verus! {

/// Two digits write a number below a bound.
pub open spec fn two_digits_below(tens: char, ones: char, bound: int) -> bool {
    text::is_digit(tens) && text::is_digit(ones) && (tens as int - 48) * 10 + (ones as int - 48)
        < bound
}

/// A 24-hour clock time `HH:MM`.
pub open spec fn is_hhmm(s: Seq<char>) -> bool {
    &&& s.len() == 5
    &&& s[2] == ':'
    &&& two_digits_below(s[0], s[1], 24)
    &&& two_digits_below(s[3], s[4], 60)
}

fn below(tens: char, ones: char, bound: u32) -> (r: bool)
    ensures
        r == two_digits_below(tens, ones, bound as int),
{
    if tens < '0' || tens > '9' || ones < '0' || ones > '9' {
        return false;
    }
    (code(tens) - 48) * 10 + (code(ones) - 48) < bound
}

/// Validate the 24-hour format `HH:MM`.
pub fn validate_hhmm(v: &str) -> (r: bool)
    ensures
        r == is_hhmm(v@),
{
    let c = chars_of(v);
    if c.len() != 5 || c[2] != ':' {
        return false;
    }
    below(c[0], c[1], 24) && below(c[3], c[4], 60)
}

/// A list of days covers a weekday: it says `Daily`, or one of its entries
/// names that day; case and blanks around an entry do not matter.
pub open spec fn day_listed(days: Seq<char>, weekday: Seq<char>) -> bool {
    text::fold(days) == text::fold("daily"@) || exists|i: int|
        0 <= i < text::split_at(days, ',').len()
            && text::fold(text::trimmed(#[trigger] text::split_at(days, ',')[i])) == text::fold(weekday)
}

/// Whether a list of days covers a weekday.
pub fn covers_day(days: &str, weekday: &str) -> (r: bool)
    ensures
        r == day_listed(days@, weekday@),
{
    if same_folded(days, "daily") {
        return true;
    }
    let parts = split(days, ',');
    let mut i: usize = 0;
    while i < parts.len()
        invariant
            i <= parts.len(),
            text::texts(parts@) == text::split_at(days@, ','),
            text::fold(days@) != text::fold("daily"@),
            forall|j: int|
                0 <= j < i ==> text::fold(text::trimmed(#[trigger] text::split_at(days@, ',')[j])) != text::fold(weekday@),
        decreases parts.len() - i,
    {
        let t = trim(parts[i].as_str());
        assert(text::texts(parts@)[i as int] == parts@[i as int]@);
        if same_folded(t.as_str(), weekday) {
            assert(text::fold(text::trimmed(text::split_at(days@, ',')[i as int])) == text::fold(weekday@));
            return true;
        }
        i = i + 1;
    }
    assert(text::split_at(days@, ',').len() == parts.len());
    false
}

/// The bit of a weekday in a mask, Monday first.
pub open spec fn day_bit(i: int) -> u8 {
    if i == 0 {
        1
    } else if i == 1 {
        2
    } else if i == 2 {
        4
    } else if i == 3 {
        8
    } else if i == 4 {
        16
    } else if i == 5 {
        32
    } else {
        64
    }
}

/// The short name of a weekday, Monday first.
pub open spec fn day_name(i: int) -> Seq<char> {
    if i == 0 {
        "Mon"@
    } else if i == 1 {
        "Tue"@
    } else if i == 2 {
        "Wed"@
    } else if i == 3 {
        "Thu"@
    } else if i == 4 {
        "Fri"@
    } else if i == 5 {
        "Sat"@
    } else {
        "Sun"@
    }
}

/// The names of the first `n` weekdays that a mask holds.
pub open spec fn named_days(mask: u8, n: int) -> Seq<Seq<char>>
    decreases n,
{
    if n <= 0 {
        Seq::empty()
    } else if mask & day_bit(n - 1) != 0 {
        named_days(mask, n - 1).push(day_name(n - 1))
    } else {
        named_days(mask, n - 1)
    }
}

/// The text of a mask: `Daily` for none or all of the days, else their names.
pub open spec fn mask_text(mask: u8) -> Seq<char> {
    if mask == 0 || mask == 127 {
        "Daily"@
    } else {
        text::join(named_days(mask, 7), seq![','])
    }
}

fn bit_of(i: usize) -> (b: u8)
    requires
        i < 7,
    ensures
        b == day_bit(i as int),
{
    let bits: [u8; 7] = [1, 2, 4, 8, 16, 32, 64];
    bits[i]
}

fn name_of(i: usize) -> (s: &'static str)
    requires
        i < 7,
    ensures
        s@ == day_name(i as int),
{
    match i {
        0 => "Mon",
        1 => "Tue",
        2 => "Wed",
        3 => "Thu",
        4 => "Fri",
        5 => "Sat",
        _ => "Sun",
    }
}

/// Day bitmask: Mon=1, Tue=2, Wed=4, Thu=8, Fri=16, Sat=32, Sun=64.
/// 0 or 127 means `Daily`.
pub fn days_from_mask(mask: u8) -> (r: String)
    ensures
        r@ == mask_text(mask),
{
    if mask == 0 || mask == 127 {
        return String::from_str("Daily");
    }
    let mut out = String::new();
    let mut count: usize = 0;
    let mut i: usize = 0;
    while i < 7
        invariant
            i <= 7,
            count <= i,
            count == named_days(mask, i as int).len(),
            out@ == text::join(named_days(mask, i as int), seq![',']),
        decreases 7 - i,
    {
        if mask & bit_of(i) != 0 {
            let ghost next = named_days(mask, i + 1);
            assert(next.drop_last() =~= named_days(mask, i as int));
            if count > 0 {
                out.push(',');
            }
            out.append(name_of(i));
            assert(out@ =~= text::join(next, seq![',']));
            count = count + 1;
        }
        i = i + 1;
    }
    out
}

/// The bit of one entry of a days list; nothing for an unknown name.
pub open spec fn entry_bit(entry: Seq<char>) -> u8 {
    let name = text::lowered(text::trimmed(entry));
    if name == "mon"@ {
        1
    } else if name == "tue"@ {
        2
    } else if name == "wed"@ {
        4
    } else if name == "thu"@ {
        8
    } else if name == "fri"@ {
        16
    } else if name == "sat"@ {
        32
    } else if name == "sun"@ {
        64
    } else {
        0
    }
}

/// The bits of all entries together.
pub open spec fn entries_mask(entries: Seq<Seq<char>>) -> u8
    decreases entries.len(),
{
    if entries.len() == 0 {
        0
    } else {
        entries_mask(entries.drop_last()) | entry_bit(entries.last())
    }
}

/// The mask of a days list; one that names no day stands for all of them.
pub open spec fn text_mask(days: Seq<char>) -> u8 {
    if text::fold(days) == text::fold("daily"@) {
        127
    } else if entries_mask(text::split_at(days, ',')) == 0 {
        127
    } else {
        entries_mask(text::split_at(days, ','))
    }
}

fn bit_of_entry(entry: &str) -> (b: u8)
    ensures
        b == entry_bit(entry@),
{
    let t = trim(entry);
    let n = to_lower(t.as_str());
    let s = n.as_str();
    if same_text(s, "mon") {
        1
    } else if same_text(s, "tue") {
        2
    } else if same_text(s, "wed") {
        4
    } else if same_text(s, "thu") {
        8
    } else if same_text(s, "fri") {
        16
    } else if same_text(s, "sat") {
        32
    } else if same_text(s, "sun") {
        64
    } else {
        0
    }
}

/// Bitmask for a stored days string (`Daily` gives 127).
pub fn mask_from_days(days: &str) -> (r: u8)
    ensures
        r == text_mask(days@),
{
    if same_folded(days, "daily") {
        return 127;
    }
    let parts = split(days, ',');
    let mut mask: u8 = 0;
    let mut i: usize = 0;
    assert(text::texts(parts@).subrange(0, 0) =~= Seq::empty());
    while i < parts.len()
        invariant
            i <= parts.len(),
            text::texts(parts@) == text::split_at(days@, ','),
            mask == entries_mask(text::texts(parts@).subrange(0, i as int)),
        decreases parts.len() - i,
    {
        let ghost next = text::texts(parts@).subrange(0, i + 1);
        assert(next.drop_last() =~= text::texts(parts@).subrange(0, i as int));
        assert(next.last() == parts@[i as int]@);
        mask = mask | bit_of_entry(parts[i].as_str());
        i = i + 1;
    }
    assert(text::texts(parts@).subrange(0, i as int) =~= text::texts(parts@));
    if mask == 0 {
        127
    } else {
        mask
    }
}

proof fn lemma_day_names(i: int)
    requires
        0 <= i < 7,
    ensures
        !day_name(i).contains(','),
        entry_bit(day_name(i)) == day_bit(i),
        text::fold(day_name(i)) != text::fold("daily"@),
{
    reveal_strlit("Mon");
    reveal_strlit("Tue");
    reveal_strlit("Wed");
    reveal_strlit("Thu");
    reveal_strlit("Fri");
    reveal_strlit("Sat");
    reveal_strlit("Sun");
    reveal_strlit("mon");
    reveal_strlit("tue");
    reveal_strlit("wed");
    reveal_strlit("thu");
    reveal_strlit("fri");
    reveal_strlit("sat");
    reveal_strlit("sun");
    reveal_strlit("daily");
    let n = day_name(i);
    assert(n.len() == 3);
    assert(text::trim_start(n) == n);
    assert(text::trim_end(n) == n);
    assert(text::is_ascii_text(n));
    assert(text::fold(n).len() == 3);
    assert(text::fold("daily"@).len() == 5);
    let f = text::fold(n);
    assert(f[0] == crate::text::fold_char(n[0]));
    assert(f[1] == crate::text::fold_char(n[1]));
    assert(f[2] == crate::text::fold_char(n[2]));
    if i == 0 {
        assert(f =~= "mon"@);
    } else if i == 1 {
        assert(f =~= "tue"@);
    } else if i == 2 {
        assert(f =~= "wed"@);
    } else if i == 3 {
        assert(f =~= "thu"@);
    } else if i == 4 {
        assert(f =~= "fri"@);
    } else if i == 5 {
        assert(f =~= "sat"@);
    } else {
        assert(f =~= "sun"@);
    }
    assert("mon"@[0] != "tue"@[0]);
    assert("tue"@[1] != "thu"@[1]);
    assert("sat"@[1] != "sun"@[1]);
    assert("mon"@[0] != "wed"@[0] && "mon"@[0] != "thu"@[0] && "mon"@[0] != "fri"@[0] && "mon"@[0]
        != "sat"@[0] && "mon"@[0] != "sun"@[0]);
    assert("tue"@[0] != "wed"@[0] && "tue"@[0] != "fri"@[0] && "tue"@[0] != "sat"@[0] && "tue"@[0]
        != "sun"@[0]);
    assert("wed"@[0] != "thu"@[0] && "wed"@[0] != "fri"@[0] && "wed"@[0] != "sat"@[0] && "wed"@[0]
        != "sun"@[0]);
    assert("thu"@[0] != "fri"@[0] && "thu"@[0] != "sat"@[0] && "thu"@[0] != "sun"@[0]);
    assert("fri"@[0] != "sat"@[0] && "fri"@[0] != "sun"@[0]);
}

/// The low `n` bits of a mask.
spec fn low_bits(mask: u8, n: int) -> u8 {
    if n <= 0 {
        0
    } else if n == 1 {
        mask & 1
    } else if n == 2 {
        mask & 3
    } else if n == 3 {
        mask & 7
    } else if n == 4 {
        mask & 15
    } else if n == 5 {
        mask & 31
    } else if n == 6 {
        mask & 63
    } else {
        mask & 127
    }
}

proof fn lemma_low_bits(mask: u8)
    ensures
        forall|n: int|
            0 < n <= 7 ==> #[trigger] low_bits(mask, n) == low_bits(mask, n - 1) | (if mask & day_bit(
                n - 1,
            ) != 0 {
                day_bit(n - 1)
            } else {
                0
            }),
{
    assert(mask & 1 == 0u8 | (if mask & 1 != 0 { 1u8 } else { 0u8 })) by (bit_vector);
    assert(mask & 3 == (mask & 1) | (if mask & 2 != 0 { 2u8 } else { 0u8 })) by (bit_vector);
    assert(mask & 7 == (mask & 3) | (if mask & 4 != 0 { 4u8 } else { 0u8 })) by (bit_vector);
    assert(mask & 15 == (mask & 7) | (if mask & 8 != 0 { 8u8 } else { 0u8 })) by (bit_vector);
    assert(mask & 31 == (mask & 15) | (if mask & 16 != 0 { 16u8 } else { 0u8 })) by (bit_vector);
    assert(mask & 63 == (mask & 31) | (if mask & 32 != 0 { 32u8 } else { 0u8 })) by (bit_vector);
    assert(mask & 127 == (mask & 63) | (if mask & 64 != 0 { 64u8 } else { 0u8 })) by (bit_vector);
}

proof fn lemma_named_days(mask: u8, n: int)
    requires
        0 <= n <= 7,
    ensures
        entries_mask(named_days(mask, n)) == low_bits(mask, n),
        forall|k: int|
            0 <= k < named_days(mask, n).len() ==> !(#[trigger] named_days(mask, n)[k]).contains(','),
        forall|k: int|
            0 <= k < named_days(mask, n).len() ==> exists|d: int|
                0 <= d < 7 && #[trigger] named_days(mask, n)[k] == day_name(d),
    decreases n,
{
    if n > 0 {
        lemma_named_days(mask, n - 1);
        lemma_low_bits(mask);
        lemma_day_names(n - 1);
        let all = named_days(mask, n);
        let front = named_days(mask, n - 1);
        if mask & day_bit(n - 1) != 0 {
            assert(all.drop_last() =~= front);
            assert forall|k: int| 0 <= k < all.len() implies !(#[trigger] all[k]).contains(',')
                && exists|d: int| 0 <= d < 7 && all[k] == day_name(d) by {
                if k < front.len() {
                    assert(all[k] == front[k]);
                } else {
                    assert(all[k] == day_name(n - 1));
                }
            }
        } else {
            let low = low_bits(mask, n - 1);
            assert(low | 0 == low) by (bit_vector);
        }
    }
}

proof fn lemma_no_days(mask: u8, n: int)
    requires
        0 <= n <= 7,
        mask & 127 == 0,
    ensures
        named_days(mask, n).len() == 0,
    decreases n,
{
    if n > 0 {
        lemma_no_days(mask, n - 1);
        assert(mask & 127 == 0 ==> mask & 1 == 0 && mask & 2 == 0 && mask & 4 == 0 && mask & 8 == 0
            && mask & 16 == 0 && mask & 32 == 0 && mask & 64 == 0) by (bit_vector);
    }
}

/// Writing a mask of weekdays as text and reading it back gives its seven days;
/// no day at all comes back as every day.
pub proof fn masks_read_back(mask: u8)
    ensures
        text_mask(mask_text(mask)) == (if mask & 127 == 0 {
            127u8
        } else {
            mask & 127
        }),
{
    reveal_strlit("daily");
    reveal_strlit("Daily");
    assert(mask == 0 ==> mask & 127 == 0) by (bit_vector);
    assert(mask == 127 ==> mask & 127 == 127) by (bit_vector);
    if mask == 0 || mask == 127 {
        assert(text::fold("Daily"@) =~= text::fold("daily"@));
    } else if mask & 127 == 0 {
        lemma_no_days(mask, 7);
        let t = mask_text(mask);
        assert(t =~= Seq::<char>::empty());
        assert(text::split_at(t, ',') =~= seq![t]);
        assert(text::fold(t).len() == 0);
        assert(text::fold("daily"@).len() == 5);
        assert(entry_bit(t) == 0) by {
            reveal_strlit("mon");
            reveal_strlit("tue");
            reveal_strlit("wed");
            reveal_strlit("thu");
            reveal_strlit("fri");
            reveal_strlit("sat");
            reveal_strlit("sun");
            assert(text::lowered(text::trimmed(t)).len() == 0);
        }
        let none = seq![t].drop_last();
        assert(none.len() == 0 && entries_mask(none) == 0);
        assert(seq![t].last() == t);
        assert(entries_mask(seq![t]) == entries_mask(none) | entry_bit(t));
        assert(0u8 | 0u8 == 0u8) by (bit_vector);
    } else {
        let names = named_days(mask, 7);
        lemma_named_days(mask, 7);
        lemma_low_bits(mask);
        assert(names.len() > 0);
        text::joining_keeps_the_pieces(names, ',');
        let t = text::join(names, seq![',']);
        // The text has the length of a name, or holds a separator.
        assert(text::fold(t) != text::fold("daily"@)) by {
            if names.len() == 1 {
                let d = choose|d: int| 0 <= d < 7 && names[0] == day_name(d);
                lemma_day_names(d);
            } else {
                let cut = text::join(names.drop_last(), seq![',']);
                let last = names.last();
                assert(t == cut + seq![','] + last);
                assert(t[cut.len() as int] == ',');
                assert(text::fold(t)[cut.len() as int] == ',');
                assert(text::fold("daily"@) =~= "daily"@);
                assert(forall|k: int| 0 <= k < 5 ==> "daily"@[k] != ',');
            }
        }
    }
}

/// The time of an hour and a minute, as a clock shows it.
pub open spec fn clock_face(hour: int, minute: int) -> Seq<char> {
    seq![
        ((48 + hour / 10) as u8) as char,
        ((48 + hour % 10) as u8) as char,
        ':',
        ((48 + minute / 10) as u8) as char,
        ((48 + minute % 10) as u8) as char,
    ]
}

/// The times of a day are exactly those that a clock shows, from 00:00 to
/// 23:59.
pub proof fn times_are_those_of_a_clock(s: Seq<char>)
    ensures
        is_hhmm(s) <==> exists|h: int, m: int|
            0 <= h < 24 && 0 <= m < 60 && s == #[trigger] clock_face(h, m),
{
    if is_hhmm(s) {
        let h = (s[0] as int - 48) * 10 + (s[1] as int - 48);
        let m = (s[3] as int - 48) * 10 + (s[4] as int - 48);
        assert(s =~= clock_face(h, m));
    }
}

/// A list of days is read entry by entry: it covers a weekday where one entry
/// names it, in any case and with blanks around it, and every weekday where it
/// says `Daily`.
pub proof fn lists_are_read_by_entries(entries: Seq<Seq<char>>, weekday: Seq<char>)
    requires
        entries.len() > 0,
        forall|i: int| 0 <= i < entries.len() ==> !(#[trigger] entries[i]).contains(','),
    ensures
        (exists|i: int|
            0 <= i < entries.len() && text::fold(text::trimmed(#[trigger] entries[i])) == text::fold(weekday)) ==> day_listed(text::join(entries, seq![',']), weekday),
        day_listed(text::join(entries, seq![',']), weekday) && text::fold(
            text::join(entries, seq![',']),
        ) != text::fold(seq!['d', 'a', 'i', 'l', 'y']) ==> (exists|i: int|
            0 <= i < entries.len() && text::fold(text::trimmed(#[trigger] entries[i])) == text::fold(weekday)),
        day_listed(seq!['D', 'a', 'i', 'l', 'y'], weekday),
{
    reveal_strlit("daily");
    assert("daily"@ =~= seq!['d', 'a', 'i', 'l', 'y']);
    assert(text::fold(seq!['D', 'a', 'i', 'l', 'y']) =~= text::fold("daily"@));
    text::joining_keeps_the_pieces(entries, ',');
    let t = text::join(entries, seq![',']);
    if exists|i: int|
        0 <= i < entries.len() && text::fold(text::trimmed(#[trigger] entries[i])) == text::fold(weekday) {
        let i = choose|i: int|
            0 <= i < entries.len() && text::fold(text::trimmed(#[trigger] entries[i])) == text::fold(weekday);
        assert(text::split_at(t, ',')[i] == entries[i]);
    }
}

proof fn lemma_name_at(mask: u8, n: int, d: int)
    requires
        0 <= n <= 7,
        0 <= d < 7,
    ensures
        (exists|k: int| 0 <= k < named_days(mask, n).len() && named_days(mask, n)[k] == day_name(d))
            <==> d < n && mask & day_bit(d) != 0,
    decreases n,
{
    lemma_day_names(d);
    if n > 0 {
        lemma_name_at(mask, n - 1, d);
        lemma_day_names(n - 1);
        let all = named_days(mask, n);
        let front = named_days(mask, n - 1);
        if d != n - 1 {
            assert(day_bit(d) != day_bit(n - 1));
            assert(day_name(d) != day_name(n - 1));
        }
        if mask & day_bit(n - 1) != 0 {
            if d == n - 1 {
                assert(all[front.len() as int] == day_name(d));
            }
            if exists|k: int| 0 <= k < front.len() && front[k] == day_name(d) {
                let k = choose|k: int| 0 <= k < front.len() && front[k] == day_name(d);
                assert(all[k] == day_name(d));
            }
            if exists|k: int| 0 <= k < all.len() && all[k] == day_name(d) {
                let k = choose|k: int| 0 <= k < all.len() && all[k] == day_name(d);
                if k < front.len() {
                    assert(front[k] == day_name(d));
                }
            }
        }
    }
}

proof fn lemma_mask_covers(mask: u8, d: int)
    requires
        0 <= d < 7,
    ensures
        day_listed(mask_text(mask), day_name(d)) <==> mask == 0 || mask & day_bit(d) != 0,
{
    reveal_strlit("daily");
    reveal_strlit("Daily");
    assert(text::fold("Daily"@) =~= text::fold("daily"@));
    assert(127u8 & 1 != 0 && 127u8 & 2 != 0 && 127u8 & 4 != 0 && 127u8 & 8 != 0 && 127u8 & 16 != 0
        && 127u8 & 32 != 0 && 127u8 & 64 != 0) by (bit_vector);
    if mask != 0 && mask != 127 {
        let names = named_days(mask, 7);
        let t = mask_text(mask);
        lemma_named_days(mask, 7);
        lemma_name_at(mask, 7, d);
        lemma_day_names(d);
        if names.len() == 0 {
            assert(t =~= Seq::<char>::empty());
            assert(text::split_at(t, ',') =~= seq![t]);
            assert(text::fold(t).len() == 0);
            assert(text::fold("daily"@).len() == 5);
            assert(text::fold(text::trimmed(t)).len() == 0);
            assert(text::fold(day_name(d)).len() == 3) by {
                lemma_name_len(d);
            }
        } else {
            text::joining_keeps_the_pieces(names, ',');
            assert(text::fold(t) != text::fold("daily"@)) by {
                lemma_names_not_daily(names);
            }
            assert forall|k: int| 0 <= k < names.len() implies (text::fold(
                text::trimmed(#[trigger] names[k]),
            ) == text::fold(day_name(d)) <==> names[k] == day_name(d)) by {
                let e = choose|e: int| 0 <= e < 7 && names[k] == day_name(e);
                lemma_name_len(e);
                lemma_name_len(d);
                lemma_day_names(e);
                lemma_folded_names(e, d);
            }
        }
    }
}

proof fn lemma_name_len(d: int)
    requires
        0 <= d < 7,
    ensures
        day_name(d).len() == 3,
        text::fold(day_name(d)).len() == 3,
        text::trimmed(day_name(d)) == day_name(d),
{
    reveal_strlit("Mon");
    reveal_strlit("Tue");
    reveal_strlit("Wed");
    reveal_strlit("Thu");
    reveal_strlit("Fri");
    reveal_strlit("Sat");
    reveal_strlit("Sun");
    let n = day_name(d);
    assert(text::trim_start(n) == n);
    assert(text::trim_end(n) == n);
}

proof fn lemma_folded_names(e: int, d: int)
    requires
        0 <= e < 7,
        0 <= d < 7,
    ensures
        text::fold(day_name(e)) == text::fold(day_name(d)) <==> e == d,
        day_name(e) == day_name(d) <==> e == d,
{
    lemma_day_names(e);
    lemma_day_names(d);
    lemma_name_len(e);
    lemma_name_len(d);
    reveal_strlit("Mon");
    reveal_strlit("Tue");
    reveal_strlit("Wed");
    reveal_strlit("Thu");
    reveal_strlit("Fri");
    reveal_strlit("Sat");
    reveal_strlit("Sun");
    let a = text::fold(day_name(e));
    let b = text::fold(day_name(d));
    assert(a[0] == text::fold_char(day_name(e)[0]) && b[0] == text::fold_char(day_name(d)[0]));
    assert(a[1] == text::fold_char(day_name(e)[1]) && b[1] == text::fold_char(day_name(d)[1]));
}

proof fn lemma_names_not_daily(names: Seq<Seq<char>>)
    requires
        names.len() > 0,
        forall|k: int|
            0 <= k < names.len() ==> exists|d: int| 0 <= d < 7 && #[trigger] names[k] == day_name(d),
    ensures
        text::fold(text::join(names, seq![','])) != text::fold("daily"@),
{
    reveal_strlit("daily");
    let t = text::join(names, seq![',']);
    if names.len() == 1 {
        let d = choose|d: int| 0 <= d < 7 && names[0] == day_name(d);
        lemma_day_names(d);
    } else {
        let cut = text::join(names.drop_last(), seq![',']);
        assert(t == cut + seq![','] + names.last());
        assert(t[cut.len() as int] == ',');
        assert(text::fold(t)[cut.len() as int] == ',');
        assert(text::fold("daily"@) =~= "daily"@);
        assert(forall|k: int| 0 <= k < 5 ==> "daily"@[k] != ',');
    }
}

/// The text of a mask covers exactly the weekdays whose bits are set, Monday in
/// the lowest; the text of no day at all covers every one.
pub proof fn masks_cover_their_days(mask: u8)
    ensures
        day_listed(mask_text(mask), "Mon"@) <==> mask == 0 || mask & 1 != 0,
        day_listed(mask_text(mask), "Tue"@) <==> mask == 0 || mask & 2 != 0,
        day_listed(mask_text(mask), "Wed"@) <==> mask == 0 || mask & 4 != 0,
        day_listed(mask_text(mask), "Thu"@) <==> mask == 0 || mask & 8 != 0,
        day_listed(mask_text(mask), "Fri"@) <==> mask == 0 || mask & 16 != 0,
        day_listed(mask_text(mask), "Sat"@) <==> mask == 0 || mask & 32 != 0,
        day_listed(mask_text(mask), "Sun"@) <==> mask == 0 || mask & 64 != 0,
{
    lemma_mask_covers(mask, 0);
    lemma_mask_covers(mask, 1);
    lemma_mask_covers(mask, 2);
    lemma_mask_covers(mask, 3);
    lemma_mask_covers(mask, 4);
    lemma_mask_covers(mask, 5);
    lemma_mask_covers(mask, 6);
}

proof fn lemma_single_bits(i: int, j: int)
    requires
        0 <= i < 7,
        0 <= j < 7,
    ensures
        day_bit(i) & day_bit(j) != 0 <==> i == j,
        0u8 & day_bit(j) == 0,
{
    assert(forall|b: u8| #[trigger] (0u8 & b) == 0) by (bit_vector);
    assert(1u8 & 1 != 0 && 1u8 & 2 == 0 && 1u8 & 4 == 0 && 1u8 & 8 == 0 && 1u8 & 16 == 0 && 1u8 & 32 == 0
        && 1u8 & 64 == 0 && 2u8 & 1 == 0 && 2u8 & 2 != 0 && 2u8 & 4 == 0 && 2u8 & 8 == 0 && 2u8 & 16 == 0
        && 2u8 & 32 == 0 && 2u8 & 64 == 0 && 4u8 & 1 == 0 && 4u8 & 2 == 0 && 4u8 & 4 != 0 && 4u8 & 8 == 0
        && 4u8 & 16 == 0 && 4u8 & 32 == 0 && 4u8 & 64 == 0 && 8u8 & 1 == 0 && 8u8 & 2 == 0 && 8u8 & 4 == 0
        && 8u8 & 8 != 0 && 8u8 & 16 == 0 && 8u8 & 32 == 0 && 8u8 & 64 == 0 && 16u8 & 1 == 0 && 16u8 & 2
        == 0 && 16u8 & 4 == 0 && 16u8 & 8 == 0 && 16u8 & 16 != 0 && 16u8 & 32 == 0 && 16u8 & 64 == 0
        && 32u8 & 1 == 0 && 32u8 & 2 == 0 && 32u8 & 4 == 0 && 32u8 & 8 == 0 && 32u8 & 16 == 0 && 32u8
        & 32 != 0 && 32u8 & 64 == 0 && 64u8 & 1 == 0 && 64u8 & 2 == 0 && 64u8 & 4 == 0 && 64u8 & 8 == 0
        && 64u8 & 16 == 0 && 64u8 & 32 == 0 && 64u8 & 64 != 0) by (bit_vector);
}

proof fn lemma_entry_bit(entry: Seq<char>, i: int)
    requires
        0 <= i < 7,
    ensures
        entry_bit(entry) & day_bit(i) != 0 <==> text::lowered(text::trimmed(entry)) == text::fold(
            day_name(i),
        ),
{
    reveal_strlit("Mon");
    reveal_strlit("Tue");
    reveal_strlit("Wed");
    reveal_strlit("Thu");
    reveal_strlit("Fri");
    reveal_strlit("Sat");
    reveal_strlit("Sun");
    reveal_strlit("mon");
    reveal_strlit("tue");
    reveal_strlit("wed");
    reveal_strlit("thu");
    reveal_strlit("fri");
    reveal_strlit("sat");
    reveal_strlit("sun");
    assert(text::fold("Mon"@) =~= "mon"@);
    assert(text::fold("Tue"@) =~= "tue"@);
    assert(text::fold("Wed"@) =~= "wed"@);
    assert(text::fold("Thu"@) =~= "thu"@);
    assert(text::fold("Fri"@) =~= "fri"@);
    assert(text::fold("Sat"@) =~= "sat"@);
    assert(text::fold("Sun"@) =~= "sun"@);
    assert("mon"@[0] == 'm' && "tue"@[0] == 't' && "wed"@[0] == 'w' && "thu"@[0] == 't' && "fri"@[0] == 'f'
        && "sat"@[0] == 's' && "sun"@[0] == 's');
    assert("tue"@[1] == 'u' && "thu"@[1] == 'h' && "sat"@[1] == 'a' && "sun"@[1] == 'u');
    lemma_single_bits(0, i);
    lemma_single_bits(1, i);
    lemma_single_bits(2, i);
    lemma_single_bits(3, i);
    lemma_single_bits(4, i);
    lemma_single_bits(5, i);
    lemma_single_bits(6, i);
}

/// A list of days sets exactly the days that it names, in any case and with
/// blanks around them; an entry that names none sets none.
pub proof fn lists_set_their_days(entries: Seq<Seq<char>>, i: int)
    requires
        0 <= i < 7,
    ensures
        entries_mask(entries) & day_bit(i) != 0 <==> exists|k: int|
            0 <= k < entries.len() && text::lowered(text::trimmed(#[trigger] entries[k])) == text::fold(
                day_name(i),
            ),
    decreases entries.len(),
{
    if entries.len() == 0 {
        lemma_single_bits(0, i);
    } else {
        let front = entries.drop_last();
        let a = entries_mask(front);
        let b = entry_bit(entries.last());
        let c = day_bit(i);
        lists_set_their_days(front, i);
        lemma_entry_bit(entries.last(), i);
        assert((a | b) & c != 0 <==> a & c != 0 || b & c != 0) by (bit_vector);
        let n = entries.len() - 1;
        assert(entries[n] == entries.last());
        if exists|k: int|
            0 <= k < front.len() && text::lowered(text::trimmed(#[trigger] front[k])) == text::fold(
                day_name(i),
            ) {
            let k = choose|k: int|
                0 <= k < front.len() && text::lowered(text::trimmed(#[trigger] front[k])) == text::fold(
                    day_name(i),
                );
            assert(entries[k] == front[k]);
        }
        if exists|k: int|
            0 <= k < entries.len() && text::lowered(text::trimmed(#[trigger] entries[k])) == text::fold(
                day_name(i),
            ) {
            let k = choose|k: int|
                0 <= k < entries.len() && text::lowered(text::trimmed(#[trigger] entries[k]))
                    == text::fold(day_name(i));
            if k < n {
                assert(front[k] == entries[k]);
            }
        }
    }
}

/// A list that names no day at all is every day.
pub proof fn empty_lists_are_daily(days: Seq<char>)
    ensures
        text_mask(days) != 0,
        entries_mask(text::split_at(days, ',')) == 0 ==> text_mask(days) == 127,
        entries_mask(text::split_at(days, ',')) != 0 && text::fold(days) != text::fold("daily"@)
            ==> text_mask(days) == entries_mask(text::split_at(days, ',')),
{
}

} // verus!
