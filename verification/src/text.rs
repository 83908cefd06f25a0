//! Text primitives: sequences of characters as the model of strings.

use vstd::prelude::*;
use vstd::string::*;

verus! {

/// `String::push` appends one character at the end.
pub assume_specification [ String::push ] (s: &mut String, c: char)
    ensures
        final(s)@ == old(s)@.push(c),
;

/// Lower-case equivalent of a text under Unicode's rules.
pub uninterp spec fn lowercase(s: Seq<char>) -> Seq<char>;

/// Upper-case equivalent of a text under Unicode's rules.
pub uninterp spec fn uppercase(s: Seq<char>) -> Seq<char>;

/// Whether Unicode counts a character as alphabetic or numeric.
pub uninterp spec fn alphanumeric(c: char) -> bool;

/// A text in the quoted form that it has in debug output.
pub uninterp spec fn quoted(s: Seq<char>) -> Seq<char>;

pub open spec fn is_ascii_upper(c: char) -> bool {
    'A' <= c <= 'Z'
}

pub open spec fn is_ascii_lower(c: char) -> bool {
    'a' <= c <= 'z'
}

pub open spec fn is_digit(c: char) -> bool {
    '0' <= c <= '9'
}

pub open spec fn is_ascii_alnum(c: char) -> bool {
    is_ascii_upper(c) || is_ascii_lower(c) || is_digit(c)
}

pub open spec fn is_ascii_text(s: Seq<char>) -> bool {
    forall|i: int| 0 <= i < s.len() ==> (#[trigger] s[i]) as int <= 127
}

/// ASCII letters in lower case, everything else unchanged.
pub open spec fn fold_char(c: char) -> char {
    if is_ascii_upper(c) {
        ((c as u32 + 32) as u32) as char
    } else {
        c
    }
}

/// ASCII letters in upper case, everything else unchanged.
pub open spec fn raise_char(c: char) -> char {
    if is_ascii_lower(c) {
        ((c as u32 - 32) as u32) as char
    } else {
        c
    }
}

pub open spec fn fold(s: Seq<char>) -> Seq<char> {
    s.map_values(|c: char| fold_char(c))
}

pub open spec fn raise(s: Seq<char>) -> Seq<char> {
    s.map_values(|c: char| raise_char(c))
}

/// A text in lower case. On ASCII text the letters are lowered one by one;
/// elsewhere Unicode's rules decide.
pub open spec fn lowered(s: Seq<char>) -> Seq<char> {
    if is_ascii_text(s) {
        fold(s)
    } else {
        lowercase(s)
    }
}

/// A text in upper case, read like [`lowered`].
pub open spec fn raised(s: Seq<char>) -> Seq<char> {
    if is_ascii_text(s) {
        raise(s)
    } else {
        uppercase(s)
    }
}

/// Whether a character is a letter or a digit: the ASCII ones, and elsewhere
/// those that Unicode counts as alphabetic or numeric.
pub open spec fn is_alnum_char(c: char) -> bool {
    if (c as int) <= 127 {
        is_ascii_alnum(c)
    } else {
        alphanumeric(c)
    }
}

/// `str::to_lowercase`: the result is a function of the text alone, and on
/// ASCII text it lowers the letters one by one.
#[verifier::external_body]
pub(crate) fn to_lower(s: &str) -> (r: String)
    ensures
        !is_ascii_text(s@) ==> r@ == lowercase(s@),
        is_ascii_text(s@) ==> r@ == fold(s@),
{
    s.to_lowercase()
}

/// `str::to_uppercase`: the result is a function of the text alone, and on
/// ASCII text it raises the letters one by one.
#[verifier::external_body]
pub(crate) fn to_upper(s: &str) -> (r: String)
    ensures
        !is_ascii_text(s@) ==> r@ == uppercase(s@),
        is_ascii_text(s@) ==> r@ == raise(s@),
{
    s.to_uppercase()
}

/// `str` under `{:?}`: quotes around the text, with escapes for what does not
/// print; the result is a function of the text alone.
#[verifier::external_body]
pub(crate) fn quote(s: &str) -> (r: String)
    ensures
        r@ == quoted(s@),
{
    format!("{:?}", s)
}

/// How a switch reads.
pub open spec fn truth(b: bool) -> Seq<char> {
    if b {
        "true"@
    } else {
        "false"@
    }
}

/// How a switch reads.
pub fn truth_word(b: bool) -> (r: &'static str)
    ensures
        r@ == truth(b),
{
    if b {
        "true"
    } else {
        "false"
    }
}

/// `char::is_alphanumeric`: a function of the character alone, and on ASCII
/// exactly the letters and the digits.
#[verifier::external_body]
pub(crate) fn is_alnum(c: char) -> (r: bool)
    ensures
        (c as int) > 127 ==> r == alphanumeric(c),
        (c as int) <= 127 ==> r == is_ascii_alnum(c),
{
    c.is_alphanumeric()
}

/// The code point of a character.
pub fn code(c: char) -> (u: u32)
    ensures
        u == c as int,
        u <= 0x10ffff,
{
    c as u32
}

/// The characters of a text, in order.
pub fn chars_of(s: &str) -> (v: Vec<char>)
    ensures
        v@ == s@,
{
    let mut v: Vec<char> = Vec::new();
    for c in it: s.chars()
        invariant
            v@ == s@.subrange(0, it.index() as int),
            it.seq() == s@,
    {
        v.push(c);
        assert(v@ =~= s@.subrange(0, it.index() + 1));
    }
    assert(v@ =~= s@);
    v
}

/// The text made of the given characters.
pub fn text_of(v: &[char]) -> (s: String)
    ensures
        s@ == v@,
{
    let mut s = String::new();
    let mut i: usize = 0;
    while i < v.len()
        invariant
            i <= v.len(),
            s@ == v@.subrange(0, i as int),
        decreases v.len() - i,
    {
        s.push(v[i]);
        i = i + 1;
        assert(s@ =~= v@.subrange(0, i as int));
    }
    assert(v@.subrange(0, i as int) =~= v@);
    s
}

/// Whether two texts are the same.
pub fn same_text(a: &str, b: &str) -> (r: bool)
    ensures
        r == (a@ == b@),
{
    let x = chars_of(a);
    let y = chars_of(b);
    if x.len() != y.len() {
        return false;
    }
    let mut i: usize = 0;
    while i < x.len()
        invariant
            i <= x.len(),
            x@ == a@,
            y@ == b@,
            x.len() == y.len(),
            forall|j: int| 0 <= j < i ==> x@[j] == y@[j],
        decreases x.len() - i,
    {
        if x[i] != y[i] {
            assert(a@[i as int] != b@[i as int]);
            return false;
        }
        i = i + 1;
    }
    assert(x@ =~= y@);
    true
}

/// The characters that Unicode gives the `White_Space` property.
pub open spec fn is_space(c: char) -> bool {
    ||| 0x09 <= c as u32 <= 0x0d
    ||| c as u32 == 0x20
    ||| c as u32 == 0x85
    ||| c as u32 == 0xa0
    ||| c as u32 == 0x1680
    ||| 0x2000 <= c as u32 <= 0x200a
    ||| c as u32 == 0x2028
    ||| c as u32 == 0x2029
    ||| c as u32 == 0x202f
    ||| c as u32 == 0x205f
    ||| c as u32 == 0x3000
}

/// Whether a character is white space.
pub fn char_is_space(c: char) -> (r: bool)
    ensures
        r == is_space(c),
{
    let u: u32 = code(c);
    (0x09 <= u && u <= 0x0d) || u == 0x20 || u == 0x85 || u == 0xa0 || u == 0x1680 || (0x2000 <= u
        && u <= 0x200a) || u == 0x2028 || u == 0x2029 || u == 0x202f || u == 0x205f || u == 0x3000
}

pub open spec fn trim_start(s: Seq<char>) -> Seq<char>
    decreases s.len(),
{
    if s.len() > 0 && is_space(s[0]) {
        trim_start(s.drop_first())
    } else {
        s
    }
}

pub open spec fn trim_end(s: Seq<char>) -> Seq<char>
    decreases s.len(),
{
    if s.len() > 0 && is_space(s.last()) {
        trim_end(s.drop_last())
    } else {
        s
    }
}

/// A text without the white space at its two ends.
pub open spec fn trimmed(s: Seq<char>) -> Seq<char> {
    trim_end(trim_start(s))
}

/// Nothing but white space, or nothing at all.
pub open spec fn is_blank(s: Seq<char>) -> bool {
    trimmed(s).len() == 0
}

proof fn lemma_trim_end_prefix(s: Seq<char>)
    ensures
        trim_end(s).len() <= s.len(),
        trim_end(s) == s.subrange(0, trim_end(s).len() as int),
        trim_end(s).len() > 0 ==> !is_space(trim_end(s).last()),
    decreases s.len(),
{
    if s.len() > 0 && is_space(s.last()) {
        lemma_trim_end_prefix(s.drop_last());
        assert(trim_end(s) =~= s.subrange(0, trim_end(s).len() as int));
    } else {
        assert(s =~= s.subrange(0, s.len() as int));
    }
}

proof fn lemma_trim_start_head(s: Seq<char>)
    ensures
        trim_start(s).len() <= s.len(),
        trim_start(s).len() > 0 ==> !is_space(trim_start(s)[0]),
    decreases s.len(),
{
    if s.len() > 0 && is_space(s[0]) {
        lemma_trim_start_head(s.drop_first());
    }
}

/// A trimmed text neither begins nor ends with white space, so trimming it
/// again changes nothing.
pub proof fn trimming_settles(s: Seq<char>)
    ensures
        trimmed(trimmed(s)) == trimmed(s),
        trimmed(s).len() > 0 ==> !is_space(trimmed(s)[0]) && !is_space(trimmed(s).last()),
        trimmed(s).len() <= s.len(),
{
    let a = trim_start(s);
    lemma_trim_start_head(s);
    lemma_trim_end_prefix(a);
}

/// The text without the white space at its two ends.
pub fn trim(s: &str) -> (r: String)
    ensures
        r@ == trimmed(s@),
{
    let v = chars_of(s);
    let mut i: usize = 0;
    assert(s@.skip(0) =~= s@);
    while i < v.len() && char_is_space(v[i])
        invariant
            i <= v.len(),
            v@ == s@,
            trim_start(s@) == trim_start(s@.skip(i as int)),
        decreases v.len() - i,
    {
        assert(s@.skip(i as int).drop_first() =~= s@.skip(i + 1));
        i = i + 1;
    }
    let mut j: usize = v.len();
    assert(s@.skip(i as int) =~= s@.subrange(i as int, j as int));
    while j > i && char_is_space(v[j - 1])
        invariant
            i <= j <= v.len(),
            v@ == s@,
            trimmed(s@) == trim_end(s@.subrange(i as int, j as int)),
        decreases j,
    {
        assert(s@.subrange(i as int, j as int).drop_last() =~= s@.subrange(i as int, j - 1));
        j = j - 1;
    }
    let mut out = String::new();
    let mut k: usize = i;
    while k < j
        invariant
            i <= k <= j <= v.len(),
            v@ == s@,
            out@ == s@.subrange(i as int, k as int),
        decreases j - k,
    {
        out.push(v[k]);
        k = k + 1;
        assert(out@ =~= s@.subrange(i as int, k as int));
    }
    out
}

/// Whether the text is empty or nothing but white space.
pub fn blank(s: &str) -> (r: bool)
    ensures
        r == is_blank(s@),
{
    let t = trim(s);
    t.as_str().is_empty()
}

/// One character with an ASCII capital lowered.
pub fn fold_one(c: char) -> (r: char)
    ensures
        r == fold_char(c),
{
    let u: u32 = code(c);
    if 65 <= u && u <= 90 {
        let d: u8 = u as u8;
        (d + 32) as char
    } else {
        c
    }
}

/// Whether two texts are the same but for the case of ASCII letters.
pub fn same_folded(a: &str, b: &str) -> (r: bool)
    ensures
        r == (fold(a@) == fold(b@)),
{
    let x = chars_of(a);
    let y = chars_of(b);
    if x.len() != y.len() {
        assert(fold(a@).len() != fold(b@).len());
        return false;
    }
    let mut i: usize = 0;
    while i < x.len()
        invariant
            i <= x.len(),
            x@ == a@,
            y@ == b@,
            x.len() == y.len(),
            forall|j: int| 0 <= j < i ==> fold_char(x@[j]) == fold_char(y@[j]),
        decreases x.len() - i,
    {
        if fold_one(x[i]) != fold_one(y[i]) {
            assert(fold(a@)[i as int] != fold(b@)[i as int]);
            return false;
        }
        i = i + 1;
    }
    assert(fold(a@) =~= fold(b@));
    true
}

/// The text of an optional string.
pub open spec fn opt_text(s: Option<String>) -> Option<Seq<char>> {
    match s {
        Some(t) => Some(t@),
        None => None,
    }
}

/// The text of an optional borrowed string.
pub open spec fn opt_str(s: Option<&str>) -> Option<Seq<char>> {
    match s {
        Some(t) => Some(t@),
        None => None,
    }
}

/// An optional string once more.
pub fn copy_opt(s: &Option<String>) -> (r: Option<String>)
    ensures
        r == *s,
{
    match s {
        Some(t) => Some(t.clone()),
        None => None,
    }
}

/// Whether two texts are there and the same, or both missing.
pub fn same_opt(a: &Option<String>, b: &Option<String>) -> (r: bool)
    ensures
        r == (opt_text(*a) == opt_text(*b)),
{
    match (a, b) {
        (Some(x), Some(y)) => same_text(x.as_str(), y.as_str()),
        (None, None) => true,
        _ => false,
    }
}

/// The texts of a sequence of strings.
pub open spec fn texts(v: Seq<String>) -> Seq<Seq<char>> {
    v.map_values(|s: String| s@)
}

/// The pieces of a text between the separators; one more piece than separators.
pub open spec fn split_at(s: Seq<char>, sep: char) -> Seq<Seq<char>>
    decreases s.len(),
{
    if s.len() == 0 {
        seq![s]
    } else {
        let front = split_at(s.drop_last(), sep);
        if s.last() == sep {
            front.push(Seq::empty())
        } else {
            front.drop_last().push(front.last().push(s.last()))
        }
    }
}

/// Texts joined by a separator.
pub open spec fn join(parts: Seq<Seq<char>>, sep: Seq<char>) -> Seq<char>
    decreases parts.len(),
{
    if parts.len() == 0 {
        Seq::empty()
    } else if parts.len() == 1 {
        parts[0]
    } else {
        join(parts.drop_last(), sep) + sep + parts.last()
    }
}

/// Splitting at a separator and joining with it gives the text back, and no
/// piece holds the separator.
pub proof fn splitting_keeps_the_text(s: Seq<char>, sep: char)
    ensures
        split_at(s, sep).len() > 0,
        join(split_at(s, sep), seq![sep]) == s,
        forall|i: int| 0 <= i < split_at(s, sep).len() ==> !(#[trigger] split_at(s, sep)[i]).contains(sep),
    decreases s.len(),
{
    if s.len() > 0 {
        let front = split_at(s.drop_last(), sep);
        splitting_keeps_the_text(s.drop_last(), sep);
        let all = split_at(s, sep);
        assert(s =~= s.drop_last().push(s.last()));
        if s.last() == sep {
            assert(all.drop_last() =~= front);
            assert(join(all, seq![sep]) =~= s);
        } else {
            assert(all.drop_last() =~= front.drop_last());
            assert(join(all, seq![sep]) =~= s);
            let last = all.last();
            assert(front.last() == front[front.len() - 1]);
            if last.contains(sep) {
                let k = choose|k: int| 0 <= k < last.len() && last[k] == sep;
                assert(front.last()[k] == sep);
                assert(front[front.len() - 1].contains(sep));
            }
            assert forall|i: int| 0 <= i < all.len() implies !(#[trigger] all[i]).contains(sep) by {
                if i < front.len() - 1 {
                    assert(all[i] == front[i]);
                }
            }
        }
    }
}

proof fn lemma_split_after(a: Seq<char>, sep: char, b: Seq<char>)
    requires
        !b.contains(sep),
    ensures
        split_at(a + seq![sep] + b, sep) == split_at(a, sep).push(b),
    decreases b.len(),
{
    let s = a + seq![sep] + b;
    if b.len() == 0 {
        assert(s.drop_last() =~= a);
        assert(b =~= Seq::<char>::empty());
    } else {
        let c = b.drop_last();
        assert(b[b.len() - 1] == b.last());
        assert(!c.contains(sep)) by {
            if c.contains(sep) {
                let k = choose|k: int| 0 <= k < c.len() && c[k] == sep;
                assert(b[k] == sep);
            }
        }
        lemma_split_after(a, sep, c);
        assert(s.drop_last() =~= a + seq![sep] + c);
        assert(b =~= c.push(b.last()));
        assert(b.last() != sep);
        assert(split_at(a, sep).push(c).drop_last() =~= split_at(a, sep));
    }
}

proof fn lemma_split_whole(b: Seq<char>, sep: char)
    requires
        !b.contains(sep),
    ensures
        split_at(b, sep) == seq![b],
    decreases b.len(),
{
    if b.len() > 0 {
        let c = b.drop_last();
        assert(b[b.len() - 1] == b.last());
        assert(!c.contains(sep)) by {
            if c.contains(sep) {
                let k = choose|k: int| 0 <= k < c.len() && c[k] == sep;
                assert(b[k] == sep);
            }
        }
        lemma_split_whole(c, sep);
        assert(b =~= c.push(b.last()));
        assert(split_at(b, sep) =~= seq![b]);
    }
}

/// Joining one or more pieces that do not hold the separator and splitting at
/// it gives the pieces back.
pub proof fn joining_keeps_the_pieces(parts: Seq<Seq<char>>, sep: char)
    requires
        parts.len() > 0,
        forall|i: int| 0 <= i < parts.len() ==> !(#[trigger] parts[i]).contains(sep),
    ensures
        split_at(join(parts, seq![sep]), sep) == parts,
    decreases parts.len(),
{
    if parts.len() == 1 {
        lemma_split_whole(parts[0], sep);
        assert(parts =~= seq![parts[0]]);
    } else {
        let front = parts.drop_last();
        assert forall|i: int| 0 <= i < front.len() implies !(#[trigger] front[i]).contains(sep) by {
            assert(front[i] == parts[i]);
        }
        joining_keeps_the_pieces(front, sep);
        assert(parts.last() == parts[parts.len() - 1]);
        lemma_split_after(join(front, seq![sep]), sep, parts.last());
        assert(parts =~= front.push(parts.last()));
    }
}

/// The pieces of a text between the separators.
pub fn split(s: &str, sep: char) -> (r: Vec<String>)
    ensures
        texts(r@) == split_at(s@, sep),
{
    let v = chars_of(s);
    let mut done: Vec<String> = Vec::new();
    let mut cur = String::new();
    let mut i: usize = 0;
    assert(s@.subrange(0, 0) =~= cur@);
    assert(texts(done@).push(cur@) =~= split_at(s@.subrange(0, 0), sep));
    while i < v.len()
        invariant
            i <= v.len(),
            v@ == s@,
            texts(done@).push(cur@) == split_at(s@.subrange(0, i as int), sep),
        decreases v.len() - i,
    {
        assert(s@.subrange(0, i + 1).drop_last() =~= s@.subrange(0, i as int));
        if v[i] == sep {
            let ghost before = texts(done@).push(cur@);
            done.push(cur);
            assert(texts(done@) =~= before);
            cur = String::new();
        } else {
            let ghost before = texts(done@).push(cur@);
            assert(before.drop_last() =~= texts(done@));
            cur.push(v[i]);
        }
        i = i + 1;
    }
    assert(s@.subrange(0, i as int) =~= s@);
    let ghost before = texts(done@).push(cur@);
    done.push(cur);
    assert(texts(done@) =~= before);
    done
}

/// One decimal digit as a character.
pub open spec fn digit_char(d: nat) -> char {
    ((48 + d) as u8) as char
}

/// A natural number in decimal.
pub open spec fn decimal(n: nat) -> Seq<char>
    decreases n,
{
    if n < 10 {
        seq![digit_char(n)]
    } else {
        decimal(n / 10).push(digit_char(n % 10))
    }
}

/// An integer in decimal, with a minus sign below zero.
pub open spec fn decimal_int(n: int) -> Seq<char> {
    if n < 0 {
        seq!['-'] + decimal((-n) as nat)
    } else {
        decimal(n as nat)
    }
}

/// Append a number in decimal.
pub fn push_decimal(s: &mut String, n: u64)
    ensures
        final(s)@ == old(s)@ + decimal(n as nat),
    decreases n,
{
    if n >= 10 {
        push_decimal(s, n / 10);
    }
    let d: u8 = (n % 10) as u8;
    let ghost mid = s@;
    s.push((48 + d) as char);
    assert(s@ =~= old(s)@ + decimal(n as nat));
}

/// Append a signed number in decimal.
pub fn push_decimal_signed(s: &mut String, n: i64)
    requires
        n > i64::MIN,
    ensures
        final(s)@ == old(s)@ + decimal_int(n as int),
{
    if n < 0 {
        s.push('-');
        push_decimal(s, (0 - n) as u64);
        assert(s@ =~= old(s)@ + decimal_int(n as int));
    } else {
        push_decimal(s, n as u64);
    }
}

/// The value of a run of decimal digits, or nothing when it is empty or holds
/// another character.
pub open spec fn digits_value(s: Seq<char>) -> Option<nat>
    decreases s.len(),
{
    if s.len() == 0 {
        None
    } else if !is_digit(s.last()) {
        None
    } else if s.len() == 1 {
        Some((s.last() as int - 48) as nat)
    } else {
        match digits_value(s.drop_last()) {
            Some(v) => Some((v * 10 + (s.last() as int - 48)) as nat),
            None => None,
        }
    }
}

/// An unsigned number as the standard library reads it: digits, with an
/// optional plus sign in front.
pub open spec fn unsigned_value(s: Seq<char>) -> Option<nat> {
    if s.len() > 1 && s[0] == '+' {
        digits_value(s.drop_first())
    } else {
        digits_value(s)
    }
}

/// What an unsigned type with the given largest value reads from a text.
pub open spec fn parsed_up_to(s: Seq<char>, max: nat) -> Option<nat> {
    match unsigned_value(s) {
        Some(v) => if v <= max { Some(v) } else { None },
        None => None,
    }
}

/// Writing a number in decimal and reading it gives the number back.
pub proof fn decimal_reads_back(n: nat)
    ensures
        digits_value(decimal(n)) == Some(n),
        unsigned_value(decimal(n)) == Some(n),
        decimal(n).len() > 0,
        forall|i: int| 0 <= i < decimal(n).len() ==> is_digit(#[trigger] decimal(n)[i]),
    decreases n,
{
    if n >= 10 {
        decimal_reads_back(n / 10);
        assert(decimal(n).drop_last() =~= decimal(n / 10));
        assert(decimal(n).len() == decimal(n / 10).len() + 1);
    }
    assert(is_digit(decimal(n)[0]));
}

proof fn lemma_digits_prefix(s: Seq<char>, i: int)
    requires
        0 < i <= s.len(),
        digits_value(s) is Some,
    ensures
        digits_value(s.subrange(0, i)) is Some,
        digits_value(s.subrange(0, i))->0 <= digits_value(s)->0,
    decreases s.len(),
{
    if i < s.len() {
        lemma_digits_prefix(s.drop_last(), i);
        assert(s.drop_last().subrange(0, i) =~= s.subrange(0, i));
    } else {
        assert(s.subrange(0, i) =~= s);
    }
}

/// Read an unsigned number no larger than `max`.
pub fn parse_up_to(s: &str, max: u64) -> (r: Option<u64>)
    ensures
        match r {
            Some(v) => parsed_up_to(s@, max as nat) == Some(v as nat),
            None => parsed_up_to(s@, max as nat) is None,
        },
{
    let v = chars_of(s);
    let start: usize = if v.len() > 1 && v[0] == '+' { 1 } else { 0 };
    let ghost body = s@.skip(start as int);
    assert(start == 1 ==> body =~= s@.drop_first());
    assert(start == 0 ==> body =~= s@);
    if v.len() == start {
        return None;
    }
    let mut total: u64 = 0;
    let mut i: usize = start;
    while i < v.len()
        invariant
            start <= i <= v.len(),
            start < v.len(),
            v@ == s@,
            body == s@.skip(start as int),
            unsigned_value(s@) == digits_value(body),
            i > start ==> digits_value(body.subrange(0, i - start)) == Some(total as nat),
            i == start ==> total == 0,
            total <= max,
        decreases v.len() - i,
    {
        let c: char = v[i];
        let u: u32 = code(c);
        let ghost next = body.subrange(0, i - start + 1);
        assert(next.drop_last() =~= body.subrange(0, i - start));
        assert(next.last() == c);
        if u < 48 || u > 57 {
            proof {
                if digits_value(body) is Some {
                    lemma_digits_prefix(body, i - start + 1);
                }
            }
            return None;
        }
        let d: u64 = (u - 48) as u64;
        proof {
            if digits_value(body) is Some {
                lemma_digits_prefix(body, i - start + 1);
            }
        }
        let grown: Option<u64> = total.checked_mul(10);
        let sum: Option<u64> = match grown {
            Some(g) => g.checked_add(d),
            None => None,
        };
        match sum {
            Some(t) => {
                if t > max {
                    return None;
                }
                assert(digits_value(next) == Some(t as nat));
                total = t;
            },
            None => {
                return None;
            },
        }
        i = i + 1;
    }
    assert(body.subrange(0, i - start) =~= body);
    Some(total)
}

/// Dictionary order by code points, which is also the order of the UTF-8 bytes.
pub open spec fn text_lt(a: Seq<char>, b: Seq<char>) -> bool
    decreases a.len(),
{
    if b.len() == 0 {
        false
    } else if a.len() == 0 {
        true
    } else if a[0] != b[0] {
        a[0] < b[0]
    } else {
        text_lt(a.drop_first(), b.drop_first())
    }
}

/// Dictionary order is a strict total order.
pub proof fn text_order_is_total(a: Seq<char>, b: Seq<char>)
    ensures
        !text_lt(a, a),
        text_lt(a, b) ==> !text_lt(b, a),
        a == b || text_lt(a, b) || text_lt(b, a),
    decreases a.len(),
{
    if a.len() > 0 {
        if b.len() > 0 {
            text_order_is_total(a.drop_first(), b.drop_first());
            if a[0] == b[0] && a.drop_first() == b.drop_first() {
                assert(a =~= seq![a[0]] + a.drop_first());
                assert(b =~= seq![b[0]] + b.drop_first());
            }
        } else {
            text_order_is_total(a.drop_first(), b);
        }
    } else if b.len() == 0 {
        assert(a =~= b);
    }
}

/// Dictionary order is transitive.
pub proof fn text_order_is_transitive(a: Seq<char>, b: Seq<char>, c: Seq<char>)
    requires
        text_lt(a, b),
        text_lt(b, c),
    ensures
        text_lt(a, c),
    decreases a.len(),
{
    if a.len() > 0 && b.len() > 0 && c.len() > 0 && a[0] == b[0] && b[0] == c[0] {
        text_order_is_transitive(a.drop_first(), b.drop_first(), c.drop_first());
    }
}

/// Whether the first text comes before the second.
pub fn text_before(a: &str, b: &str) -> (r: bool)
    ensures
        r == text_lt(a@, b@),
{
    let x = chars_of(a);
    let y = chars_of(b);
    let mut i: usize = 0;
    assert(a@.skip(0) =~= a@);
    assert(b@.skip(0) =~= b@);
    while i < x.len() && i < y.len()
        invariant
            i <= x.len(),
            i <= y.len(),
            x@ == a@,
            y@ == b@,
            text_lt(a@, b@) == text_lt(a@.skip(i as int), b@.skip(i as int)),
        decreases x.len() - i,
    {
        if x[i] != y[i] {
            return code(x[i]) < code(y[i]);
        }
        assert(a@.skip(i as int).drop_first() =~= a@.skip(i + 1));
        assert(b@.skip(i as int).drop_first() =~= b@.skip(i + 1));
        i = i + 1;
    }
    i < y.len()
}

/// Whether `key` occurs somewhere in `s` as a run of adjacent characters.
pub open spec fn holds(s: Seq<char>, key: Seq<char>) -> bool {
    exists|i: int| occurs_at(s, key, i)
}

pub open spec fn occurs_at(s: Seq<char>, key: Seq<char>, i: int) -> bool {
    0 <= i && i + key.len() <= s.len() && s.subrange(i, i + key.len()) == key
}

/// Whether `key` occurs in `s` at index `at`.
fn occurs(s: &Vec<char>, key: &Vec<char>, at: usize) -> (r: bool)
    requires
        at + key.len() <= s.len(),
    ensures
        r == occurs_at(s@, key@, at as int),
{
    let mut j: usize = 0;
    while j < key.len()
        invariant
            j <= key.len(),
            at + key.len() <= s.len(),
            forall|k: int| 0 <= k < j ==> s@[at + k] == key@[k],
        decreases key.len() - j,
    {
        if s[at + j] != key[j] {
            assert(s@.subrange(at as int, at + key.len())[j as int] != key@[j as int]);
            return false;
        }
        j = j + 1;
    }
    assert(s@.subrange(at as int, at + key.len()) =~= key@);
    true
}

/// Whether `key` occurs somewhere in `s`.
pub fn contains_text(s: &str, key: &str) -> (r: bool)
    ensures
        r == holds(s@, key@),
{
    let v = chars_of(s);
    let k = chars_of(key);
    if k.len() > v.len() {
        return false;
    }
    let mut i: usize = 0;
    while i <= v.len() - k.len()
        invariant
            k.len() <= v.len(),
            i <= v.len() - k.len() + 1,
            v@ == s@,
            k@ == key@,
            forall|j: int| 0 <= j < i ==> !occurs_at(s@, key@, j),
        decreases v.len() - k.len() + 1 - i,
    {
        if occurs(&v, &k, i) {
            assert(occurs_at(s@, key@, i as int));
            return true;
        }
        if i == v.len() - k.len() {
            assert forall|j: int| !occurs_at(s@, key@, j) by {
            }
            return false;
        }
        i = i + 1;
    }
    false
}

/// Whether a text starts with another.
pub open spec fn begins(s: Seq<char>, head: Seq<char>) -> bool {
    head.len() <= s.len() && s.subrange(0, head.len() as int) == head
}

/// Whether a text starts with another.
pub fn starts_text(s: &str, head: &str) -> (r: bool)
    ensures
        r == begins(s@, head@),
{
    let v = chars_of(s);
    let k = chars_of(head);
    k.len() <= v.len() && occurs(&v, &k, 0)
}

/// The parts of a text before and behind the first separator, where there is
/// one.
pub open spec fn cut_at(s: Seq<char>, sep: char) -> Option<(Seq<char>, Seq<char>)>
    decreases s.len(),
{
    if s.len() == 0 {
        None
    } else if s[0] == sep {
        Some((Seq::empty(), s.drop_first()))
    } else {
        match cut_at(s.drop_first(), sep) {
            Some((a, b)) => Some((seq![s[0]] + a, b)),
            None => None,
        }
    }
}

/// Cutting at a separator cuts at the first one, and takes nothing else away.
pub proof fn cutting_at_the_first(s: Seq<char>, sep: char, i: int)
    requires
        0 <= i < s.len(),
        s[i] == sep,
        forall|j: int| 0 <= j < i ==> s[j] != sep,
    ensures
        cut_at(s, sep) == Some((s.subrange(0, i), s.skip(i + 1))),
{
    lemma_cut(s, sep, i);
}

proof fn lemma_cut(s: Seq<char>, sep: char, i: int)
    requires
        0 <= i <= s.len(),
        forall|j: int| 0 <= j < i ==> s[j] != sep,
        i < s.len() ==> s[i] == sep,
    ensures
        cut_at(s, sep) == (if i < s.len() {
            Some((s.subrange(0, i), s.skip(i + 1)))
        } else {
            None
        }),
    decreases s.len(),
{
    if s.len() > 0 {
        if s[0] == sep {
            assert(s.subrange(0, 0) =~= Seq::empty());
            assert(s.drop_first() =~= s.skip(1));
        } else {
            let t = s.drop_first();
            assert forall|j: int| 0 <= j < i - 1 implies t[j] != sep by {
                assert(t[j] == s[j + 1]);
            }
            lemma_cut(t, sep, i - 1);
            if i < s.len() {
                assert(seq![s[0]] + t.subrange(0, i - 1) =~= s.subrange(0, i));
                assert(t.skip(i) =~= s.skip(i + 1));
            }
        }
    }
}

/// Cut a text at the first separator.
pub fn cut(s: &str, sep: char) -> (r: Option<(String, String)>)
    ensures
        match r {
            Some((a, b)) => cut_at(s@, sep) == Some((a@, b@)),
            None => cut_at(s@, sep) is None,
        },
{
    let v = chars_of(s);
    let mut i: usize = 0;
    while i < v.len() && v[i] != sep
        invariant
            i <= v.len(),
            forall|j: int| 0 <= j < i ==> v@[j] != sep,
        decreases v.len() - i,
    {
        i = i + 1;
    }
    proof {
        lemma_cut(v@, sep, i as int);
    }
    if i == v.len() {
        return None;
    }
    let a = text_of(vstd::slice::slice_subrange(v.as_slice(), 0, i));
    let b = text_of(vstd::slice::slice_subrange(v.as_slice(), i + 1, v.len()));
    assert(b@ =~= s@.skip(i + 1));
    Some((a, b))
}

/// A text with every line break turned into a space.
pub open spec fn on_one_line(s: Seq<char>) -> Seq<char> {
    s.map_values(|c: char| if c == '\r' || c == '\n' { ' ' } else { c })
}

/// Turn every line break into a space.
pub fn one_line(s: &str) -> (r: String)
    ensures
        r@ == on_one_line(s@),
{
    let v = chars_of(s);
    let mut r = String::new();
    let mut i: usize = 0;
    while i < v.len()
        invariant
            i <= v.len(),
            v@ == s@,
            r@ == on_one_line(s@).subrange(0, i as int),
        decreases v.len() - i,
    {
        r.push(if v[i] == '\r' || v[i] == '\n' { ' ' } else { v[i] });
        i = i + 1;
        assert(r@ =~= on_one_line(s@).subrange(0, i as int));
    }
    assert(on_one_line(s@).subrange(0, i as int) =~= on_one_line(s@));
    r
}

/// The text that stands for bytes that are not valid UTF-8.
pub uninterp spec fn replaced_text(b: Seq<u8>) -> Seq<char>;

/// The text of bytes: as UTF-8 where they are that, otherwise with the broken
/// parts replaced.
pub open spec fn lossy(b: Seq<u8>) -> Seq<char> {
    if vstd::utf8::valid_utf8(b) {
        vstd::utf8::decode_utf8(b)
    } else {
        replaced_text(b)
    }
}

/// `String::from_utf8_lossy`: valid UTF-8 is taken as it is; what stands for
/// anything else depends on the bytes alone.
#[verifier::external_body]
pub(crate) fn lossy_text(b: &[u8]) -> (r: String)
    ensures
        vstd::utf8::valid_utf8(b@) ==> r@ == vstd::utf8::decode_utf8(b@),
        !vstd::utf8::valid_utf8(b@) ==> r@ == replaced_text(b@),
{
    String::from_utf8_lossy(b).to_string()
}

/// The first line of a text, without its line ending.
pub open spec fn first_line_of(s: Seq<char>) -> Seq<char> {
    match cut_at(s, '\n') {
        Some((line, _)) => if line.len() > 0 && line.last() == '\r' {
            line.drop_last()
        } else {
            line
        },
        None => s,
    }
}

/// The first line of a text, without its line ending.
pub fn first_line(s: &str) -> (r: String)
    ensures
        r@ == first_line_of(s@),
{
    match cut(s, '\n') {
        Some((line, _)) => {
            let v = chars_of(line.as_str());
            if v.len() > 0 && v[v.len() - 1] == '\r' {
                let t = text_of(vstd::slice::slice_subrange(v.as_slice(), 0, v.len() - 1));
                assert(t@ =~= line@.drop_last());
                t
            } else {
                line
            }
        },
        None => String::from_str(s),
    }
}

/// Whether a text ends with another.
pub open spec fn ends(s: Seq<char>, tail: Seq<char>) -> bool {
    tail.len() <= s.len() && s.skip(s.len() - tail.len()) == tail
}

/// Whether a text ends with another.
pub fn ends_text(s: &str, tail: &str) -> (r: bool)
    ensures
        r == ends(s@, tail@),
{
    let v = chars_of(s);
    let k = chars_of(tail);
    if k.len() > v.len() {
        return false;
    }
    let at: usize = v.len() - k.len();
    assert(v@.subrange(at as int, at + k.len()) =~= v@.skip(at as int));
    occurs(&v, &k, at)
}

/// Cut the white space behind a text.
pub fn trim_tail(s: &str) -> (r: String)
    ensures
        r@ == trim_end(s@),
{
    let v = chars_of(s);
    let mut n: usize = v.len();
    assert(v@.subrange(0, n as int) =~= v@);
    while n > 0 && char_is_space(v[n - 1])
        invariant
            n <= v.len(),
            trim_end(v@.subrange(0, n as int)) == trim_end(v@),
        decreases n,
    {
        assert(v@.subrange(0, n as int).drop_last() =~= v@.subrange(0, n - 1));
        n = n - 1;
    }
    text_of(vstd::slice::slice_subrange(v.as_slice(), 0, n))
}

/// The parts of a text before and behind the first place where another text
/// stands, where it stands at all.
pub open spec fn cut_by(s: Seq<char>, key: Seq<char>) -> Option<(Seq<char>, Seq<char>)>
    decreases s.len(),
{
    if begins(s, key) {
        Some((Seq::empty(), s.skip(key.len() as int)))
    } else if s.len() == 0 {
        None
    } else {
        match cut_by(s.drop_first(), key) {
            Some((a, b)) => Some((seq![s[0]] + a, b)),
            None => None,
        }
    }
}

proof fn lemma_cut_by(s: Seq<char>, key: Seq<char>, i: int)
    requires
        0 <= i <= s.len(),
        forall|j: int| 0 <= j < i ==> !#[trigger] occurs_at(s, key, j),
    ensures
        occurs_at(s, key, i) ==> cut_by(s, key) == Some(
            (s.subrange(0, i), s.skip(i + key.len())),
        ),
        i == s.len() && !occurs_at(s, key, i) ==> cut_by(s, key) is None,
    decreases i,
{
    if i == 0 {
        assert(occurs_at(s, key, 0) == begins(s, key));
        assert(s.subrange(0, 0) =~= Seq::empty());
    } else {
        assert(!occurs_at(s, key, 0));
        assert(!begins(s, key));
        let t = s.drop_first();
        assert forall|j: int| 0 <= j < i - 1 implies !#[trigger] occurs_at(t, key, j) by {
            assert(!occurs_at(s, key, j + 1));
            if j + key.len() <= t.len() {
                assert(t.subrange(j, j + key.len()) =~= s.subrange(j + 1, j + 1 + key.len()));
            }
        }
        lemma_cut_by(t, key, i - 1);
        if i + key.len() <= s.len() {
            assert(t.subrange(i - 1, i - 1 + key.len()) =~= s.subrange(i, i + key.len()));
            assert(seq![s[0]] + t.subrange(0, i - 1) =~= s.subrange(0, i));
            assert(t.skip(i - 1 + key.len()) =~= s.skip(i + key.len()));
        }
        assert(occurs_at(t, key, i - 1) == occurs_at(s, key, i));
    }
}

/// Cut a text at the first place where another text stands.
pub fn cut_text(s: &str, key: &str) -> (r: Option<(String, String)>)
    ensures
        match r {
            Some((a, b)) => cut_by(s@, key@) == Some((a@, b@)),
            None => cut_by(s@, key@) is None,
        },
{
    let v = chars_of(s);
    let k = chars_of(key);
    let mut i: usize = 0;
    loop
        invariant
            i <= v.len(),
            v@ == s@,
            k@ == key@,
            forall|j: int| 0 <= j < i ==> !#[trigger] occurs_at(s@, key@, j),
        decreases v.len() - i,
    {
        proof {
            lemma_cut_by(s@, key@, i as int);
        }
        if k.len() <= v.len() - i && occurs(&v, &k, i) {
            let a = text_of(vstd::slice::slice_subrange(v.as_slice(), 0, i));
            let b = text_of(vstd::slice::slice_subrange(v.as_slice(), i + k.len(), v.len()));
            assert(b@ =~= s@.skip(i + key@.len()));
            return Some((a, b));
        }
        if i == v.len() {
            return None;
        }
        i = i + 1;
    }
}

/// Cut the white space before a text.
pub fn trim_head(s: &str) -> (r: String)
    ensures
        r@ == trim_start(s@),
{
    let v = chars_of(s);
    let mut i: usize = 0;
    assert(v@.skip(0) =~= v@);
    while i < v.len() && char_is_space(v[i])
        invariant
            i <= v.len(),
            trim_start(v@.skip(i as int)) == trim_start(v@),
        decreases v.len() - i,
    {
        assert(v@.skip(i as int).drop_first() =~= v@.skip(i + 1));
        i = i + 1;
    }
    let t = text_of(vstd::slice::slice_subrange(v.as_slice(), i, v.len()));
    assert(t@ =~= v@.skip(i as int));
    t
}

/// The digits at the front of a text.
pub open spec fn leading_digits(s: Seq<char>) -> Seq<char>
    decreases s.len(),
{
    if s.len() > 0 && is_digit(s[0]) {
        seq![s[0]] + leading_digits(s.drop_first())
    } else {
        Seq::empty()
    }
}

/// The digits at the front of a text.
pub fn digits_of(s: &str) -> (r: String)
    ensures
        r@ == leading_digits(s@),
{
    let v = chars_of(s);
    let mut r = String::new();
    let mut i: usize = 0;
    assert(v@.skip(0) =~= v@);
    assert(r@ + leading_digits(v@) =~= leading_digits(v@));
    while i < v.len() && '0' <= v[i] && v[i] <= '9'
        invariant
            i <= v.len(),
            r@ + leading_digits(v@.skip(i as int)) == leading_digits(v@),
        decreases v.len() - i,
    {
        let ghost before = r@;
        assert(v@.skip(i as int).drop_first() =~= v@.skip(i + 1));
        r.push(v[i]);
        assert(r@ + leading_digits(v@.skip(i + 1)) =~= before + leading_digits(v@.skip(i as int)));
        i = i + 1;
    }
    assert(leading_digits(v@.skip(i as int)) =~= Seq::empty());
    assert(r@ + Seq::<char>::empty() =~= r@);
    r
}

/// `String::from_utf8`: the text of valid UTF-8, nothing for other bytes.
#[verifier::external_body]
pub(crate) fn utf8_text(b: Vec<u8>) -> (r: Option<String>)
    ensures
        match r {
            Some(s) => vstd::utf8::valid_utf8(b@) && s@ == vstd::utf8::decode_utf8(b@),
            None => !vstd::utf8::valid_utf8(b@),
        },
{
    String::from_utf8(b).ok()
}

proof fn lemma_trim_front(a: Seq<char>, s: Seq<char>)
    requires
        forall|i: int| 0 <= i < a.len() ==> is_space(#[trigger] a[i]),
        s.len() > 0 ==> !is_space(s[0]),
    ensures
        trim_start(a + s) == s,
    decreases a.len(),
{
    if a.len() > 0 {
        assert((a + s).drop_first() =~= a.drop_first() + s);
        assert(is_space(a[0]));
        assert forall|i: int| 0 <= i < a.drop_first().len() implies is_space(
            #[trigger] a.drop_first()[i],
        ) by {
            assert(a.drop_first()[i] == a[i + 1]);
        }
        lemma_trim_front(a.drop_first(), s);
    } else {
        assert(a + s =~= s);
    }
}

proof fn lemma_trim_back(s: Seq<char>, b: Seq<char>)
    requires
        forall|i: int| 0 <= i < b.len() ==> is_space(#[trigger] b[i]),
        s.len() > 0 ==> !is_space(s.last()),
    ensures
        trim_end(s + b) == s,
    decreases b.len(),
{
    if b.len() > 0 {
        assert((s + b).drop_last() =~= s + b.drop_last());
        assert(is_space(b[b.len() - 1]));
        lemma_trim_back(s, b.drop_last());
    } else {
        assert(s + b =~= s);
    }
}

/// Trimming takes away the blanks at both ends, and nothing else: what is
/// between them stays. A text of blanks alone is blank.
pub proof fn trimming_takes_the_blanks(a: Seq<char>, s: Seq<char>, b: Seq<char>)
    requires
        forall|i: int|
            0 <= i < a.len() ==> (#[trigger] a[i]) == ' ' || a[i] == '\t' || a[i] == '\r' || a[i]
                == '\n',
        forall|i: int|
            0 <= i < b.len() ==> (#[trigger] b[i]) == ' ' || b[i] == '\t' || b[i] == '\r' || b[i]
                == '\n',
        s.len() > 0 ==> '!' <= s[0] <= '~' && '!' <= s.last() <= '~',
    ensures
        trimmed(a + s + b) == s,
        is_blank(a + s + b) <==> s.len() == 0,
{
    assert(a + s + b =~= a + (s + b));
    if s.len() > 0 {
        assert((s + b)[0] == s[0]);
        lemma_trim_front(a, s + b);
        lemma_trim_back(s, b);
    } else {
        assert(a + s + b =~= (a + b) + s);
        assert forall|i: int| 0 <= i < (a + b).len() implies is_space(#[trigger] (a + b)[i]) by {
            if i < a.len() {
                assert((a + b)[i] == a[i]);
            } else {
                assert((a + b)[i] == b[i - a.len()]);
            }
        }
        lemma_trim_front(a + b, s);
        lemma_trim_back(s, Seq::empty());
        assert(s + Seq::<char>::empty() =~= s);
    }
}

/// Two texts are the same but for the case of ASCII letters exactly where they
/// have the same length and each pair of characters is the same or one letter
/// in its two cases.
pub proof fn folding_forgives_case(a: Seq<char>, b: Seq<char>)
    ensures
        fold(a) == fold(b) <==> a.len() == b.len() && forall|i: int|
            0 <= i < a.len() ==> (#[trigger] a[i]) == #[trigger] b[i] || ('A' <= a[i] <= 'Z' && b[i] as int
                == a[i] as int + 32) || ('a' <= a[i] <= 'z' && b[i] as int == a[i] as int - 32),
{
    if fold(a) == fold(b) {
        assert(fold(a).len() == a.len() && fold(b).len() == b.len());
        assert forall|i: int| 0 <= i < a.len() implies (#[trigger] a[i]) == #[trigger] b[i] || ('A'
            <= a[i] <= 'Z' && b[i] as int == a[i] as int + 32) || ('a' <= a[i] <= 'z' && b[i] as int
            == a[i] as int - 32) by {
            assert(fold(a)[i] == fold_char(a[i]));
            assert(fold(b)[i] == fold_char(b[i]));
        }
    }
    if a.len() == b.len() && (forall|i: int|
        0 <= i < a.len() ==> (#[trigger] a[i]) == #[trigger] b[i] || ('A' <= a[i] <= 'Z' && b[i] as int
            == a[i] as int + 32) || ('a' <= a[i] <= 'z' && b[i] as int == a[i] as int - 32)) {
        assert forall|i: int| 0 <= i < a.len() implies fold(a)[i] == fold(b)[i] by {
            assert(a[i] == b[i] || ('A' <= a[i] <= 'Z' && b[i] as int == a[i] as int + 32) || ('a'
                <= a[i] <= 'z' && b[i] as int == a[i] as int - 32));
        }
        assert(fold(a) =~= fold(b));
    }
}

/// Texts are ordered by the first character in which they differ, and a text
/// comes before what continues it.
pub proof fn texts_go_by_their_first_difference(
    p: Seq<char>,
    x: char,
    y: char,
    a: Seq<char>,
    b: Seq<char>,
)
    ensures
        x != y ==> (text_lt(p + seq![x] + a, p + seq![y] + b) <==> x < y),
        text_lt(p, p + seq![y] + b),
        !text_lt(p + seq![y] + b, p),
        !text_lt(p, p),
    decreases p.len(),
{
    if p.len() > 0 {
        let q = p.drop_first();
        texts_go_by_their_first_difference(q, x, y, a, b);
        assert((p + seq![x] + a).drop_first() =~= q + seq![x] + a);
        assert((p + seq![y] + b).drop_first() =~= q + seq![y] + b);
    } else {
        assert((p + seq![x] + a)[0] == x);
        assert((p + seq![y] + b)[0] == y);
    }
}

/// Cutting where another text stands cuts at the first such place.
pub proof fn cutting_by_the_first(s: Seq<char>, key: Seq<char>, i: int)
    requires
        0 <= i <= s.len(),
        occurs_at(s, key, i),
        forall|j: int| 0 <= j < i ==> !#[trigger] occurs_at(s, key, j),
    ensures
        cut_by(s, key) == Some((s.subrange(0, i), s.skip(i + key.len()))),
{
    lemma_cut_by(s, key, i);
}

/// A text without another is not cut by it.
pub proof fn cutting_needs_a_place(s: Seq<char>, key: Seq<char>)
    requires
        !holds(s, key),
    ensures
        cut_by(s, key) is None,
{
    assert forall|j: int| 0 <= j < s.len() implies !#[trigger] occurs_at(s, key, j) by {}
    lemma_cut_by(s, key, s.len() as int);
}

/// The digits in front of a text that goes on with something else.
pub proof fn leading_digits_stop(d: Seq<char>, rest: Seq<char>)
    requires
        forall|i: int| 0 <= i < d.len() ==> is_digit(#[trigger] d[i]),
        rest.len() > 0 ==> !is_digit(rest[0]),
    ensures
        leading_digits(d + rest) == d,
    decreases d.len(),
{
    let s = d + rest;
    if d.len() == 0 {
        assert(s =~= rest);
        assert(leading_digits(s) =~= d);
    } else {
        assert(s[0] == d[0]);
        let e = d.drop_first();
        assert forall|i: int| 0 <= i < e.len() implies is_digit(#[trigger] e[i]) by {
            assert(e[i] == d[i + 1]);
        }
        leading_digits_stop(e, rest);
        assert(s.drop_first() =~= e + rest);
        assert(seq![d[0]] + e =~= d);
    }
}

/// A text on one line is as long as it was, and differs from it only in its
/// line breaks, which are blanks.
pub proof fn one_line_keeps_the_rest(s: Seq<char>, i: int)
    requires
        0 <= i < s.len(),
    ensures
        on_one_line(s).len() == s.len(),
        s[i] == '\n' || s[i] == '\r' ==> on_one_line(s)[i] == ' ',
        s[i] != '\n' && s[i] != '\r' ==> on_one_line(s)[i] == s[i],
{
}

/// What stands in the middle of a text is held by it.
pub proof fn middles_are_held(a: Seq<char>, b: Seq<char>, c: Seq<char>)
    ensures
        holds(a + b + c, b),
        holds(a + b, b),
        holds(a + b + c, a),
{
    assert((a + b + c).subrange(a.len() as int, (a.len() + b.len()) as int) =~= b);
    assert(occurs_at(a + b + c, b, a.len() as int));
    assert((a + b).subrange(a.len() as int, (a.len() + b.len()) as int) =~= b);
    assert(occurs_at(a + b, b, a.len() as int));
    assert((a + b + c).subrange(0, a.len() as int) =~= a);
    assert(occurs_at(a + b + c, a, 0));
}

} // verus!
