//! Text as sequences of characters: search, letter case and decimal numerals.
use vstd::prelude::*;
use vstd::string::*;

verus! {

/// `String::push`: appends one character.
pub assume_specification[ String::push ](s: &mut String, c: char)
    ensures
        final(s)@ == old(s)@.push(c),
;

/// The characters of `s`.
pub fn characters(s: &str) -> (v: Vec<char>)
    ensures
        v@ == s@,
{
    let mut v: Vec<char> = Vec::new();
    for c in it: s.chars()
        invariant
            it.seq() == s@,
            v@ == it.seq().take(it.index() as int),
    {
        v.push(c);
    }
    v
}

/// The characters `from..to` of `v` as text.
pub fn text_of(v: &Vec<char>, from: usize, to: usize) -> (s: String)
    requires
        from <= to <= v@.len(),
    ensures
        s@ == v@.subrange(from as int, to as int),
{
    let mut s = String::new();
    let mut i: usize = from;
    while i < to
        invariant
            from <= i <= to <= v@.len(),
            s@ == v@.subrange(from as int, i as int),
        decreases to - i,
    {
        s.push(v[i]);
        i = i + 1;
    }
    s
}

/// The text of an optional string.
pub open spec fn optional_text(s: Option<String>) -> Option<Seq<char>> {
    match s {
        Some(t) => Some(t@),
        None => None,
    }
}

/// The text of an optional string slice.
pub open spec fn optional_str(s: Option<&str>) -> Option<Seq<char>> {
    match s {
        Some(t) => Some(t@),
        None => None,
    }
}

/// A copy of an optional string.
pub fn copy_optional(s: &Option<String>) -> (r: Option<String>)
    ensures
        optional_text(r) == optional_text(*s),
{
    match s {
        Some(t) => Some(t.clone()),
        None => None,
    }
}

/// A slice of an optional string.
pub fn slice_optional(s: &Option<String>) -> (r: Option<&str>)
    ensures
        optional_str(r) == optional_text(*s),
{
    match s {
        Some(t) => Some(t.as_str()),
        None => None,
    }
}

/// `p` stands in `s` at position `i`.
pub open spec fn stands_at(s: Seq<char>, p: Seq<char>, i: int) -> bool {
    0 <= i && i + p.len() <= s.len() && s.subrange(i, i + p.len()) == p
}

/// `p` stands somewhere in `s`.
pub open spec fn occurs(s: Seq<char>, p: Seq<char>) -> bool {
    exists|i: int| stands_at(s, p, i)
}

fn is_at(s: &Vec<char>, p: &Vec<char>, i: usize) -> (r: bool)
    requires
        i + p@.len() <= s@.len(),
    ensures
        r == stands_at(s@, p@, i as int),
{
    let n: usize = s.len();
    let mut j: usize = 0;
    while j < p.len()
        invariant
            j <= p@.len(),
            n == s@.len(),
            i + p@.len() <= s@.len(),
            forall|k: int| 0 <= k < j ==> s@[i + k] == p@[k],
        decreases p@.len() - j,
    {
        if s[i + j] != p[j] {
            proof {
                assert(s@.subrange(i as int, i + p@.len())[j as int] == s@[i + j]);
            }
            return false;
        }
        j = j + 1;
    }
    assert(s@.subrange(i as int, i + p@.len()) =~= p@);
    true
}

/// The first position at which `p` stands in `s`.
pub fn find(s: &Vec<char>, p: &Vec<char>) -> (r: Option<usize>)
    ensures
        r is None <==> !occurs(s@, p@),
        r matches Some(i) ==> stands_at(s@, p@, i as int) && forall|k: int|
            0 <= k < i ==> !stands_at(s@, p@, k),
{
    if s.len() < p.len() {
        return None;
    }
    let mut i: usize = 0;
    while i <= s.len() - p.len()
        invariant
            p@.len() <= s@.len(),
            i <= s@.len() - p@.len() + 1,
            forall|k: int| 0 <= k < i ==> !stands_at(s@, p@, k),
        decreases s@.len() - p@.len() + 1 - i,
    {
        if is_at(s, p, i) {
            return Some(i);
        }
        if i == s.len() - p.len() {
            return None;
        }
        i = i + 1;
    }
    None
}

/// `p` stands somewhere in `s`.
pub fn contains(s: &str, p: &str) -> (r: bool)
    ensures
        r == occurs(s@, p@),
{
    let (a, b) = (characters(s), characters(p));
    find(&a, &b).is_some()
}

/// The two texts are the same.
pub fn same(a: &str, b: &str) -> (r: bool)
    ensures
        r == (a@ == b@),
{
    let (x, y) = (characters(a), characters(b));
    if x.len() != y.len() {
        return false;
    }
    let r = is_at(&x, &y, 0);
    proof {
        assert(x@.subrange(0, y@.len() as int) =~= x@);
    }
    r
}

/// `s` ends in `p`.
pub open spec fn ends_in(s: Seq<char>, p: Seq<char>) -> bool {
    p.len() <= s.len() && s.subrange(s.len() - p.len(), s.len() as int) == p
}

/// Whether `s` ends in `p`.
pub fn ends_with(s: &str, p: &str) -> (r: bool)
    ensures
        r == ends_in(s@, p@),
{
    let (a, b) = (characters(s), characters(p));
    if a.len() < b.len() {
        return false;
    }
    is_at(&a, &b, a.len() - b.len())
}

pub open spec fn lower_letter(c: char) -> char {
    if 'A' <= c && c <= 'Z' {
        ((c as u8) + 32) as u8 as char
    } else {
        c
    }
}

pub open spec fn upper_letter(c: char) -> char {
    if 'a' <= c && c <= 'z' {
        ((c as u8) - 32) as u8 as char
    } else {
        c
    }
}

/// `s` with the letters `A` to `Z` in lower case.
pub open spec fn lower(s: Seq<char>) -> Seq<char> {
    Seq::new(s.len(), |i: int| lower_letter(s[i]))
}

/// `s` with the letters `a` to `z` in upper case.
pub open spec fn upper(s: Seq<char>) -> Seq<char> {
    Seq::new(s.len(), |i: int| upper_letter(s[i]))
}

/// Only the letters `A` to `Z` have a small letter of their own, and only `a` to `z` a
/// capital one; the two changes undo each other.
pub proof fn law_letters(c: char)
    ensures
        'A' <= c && c <= 'Z' ==> 'a' <= lower_letter(c) && lower_letter(c) <= 'z' && upper_letter(
            lower_letter(c),
        ) == c && lower_letter(c) as int - 'a' as int == c as int - 'A' as int,
        'a' <= c && c <= 'z' ==> 'A' <= upper_letter(c) && upper_letter(c) <= 'Z' && lower_letter(
            upper_letter(c),
        ) == c && lower_letter(c) == c,
        !('A' <= c && c <= 'Z') && !('a' <= c && c <= 'z') ==> lower_letter(c) == c
            && upper_letter(c) == c,
{
}

fn to_lower_letter(c: char) -> (r: char)
    ensures
        r == lower_letter(c),
{
    if 'A' <= c && c <= 'Z' {
        (c as u8 + 32) as char
    } else {
        c
    }
}

fn to_upper_letter(c: char) -> (r: char)
    ensures
        r == upper_letter(c),
{
    if 'a' <= c && c <= 'z' {
        (c as u8 - 32) as char
    } else {
        c
    }
}

/// `s` with the letters `A` to `Z` in lower case.
pub fn to_ascii_lowercase(s: &str) -> (r: String)
    ensures
        r@ == lower(s@),
{
    let v = characters(s);
    let mut r = String::new();
    let mut i: usize = 0;
    while i < v.len()
        invariant
            i <= v@.len(),
            r@ == lower(v@).take(i as int),
        decreases v@.len() - i,
    {
        r.push(to_lower_letter(v[i]));
        i = i + 1;
        assert(r@ =~= lower(v@).take(i as int));
    }
    assert(lower(v@).take(i as int) =~= lower(v@));
    r
}

/// `s` with the letters `a` to `z` in upper case.
pub fn to_ascii_uppercase(s: &str) -> (r: String)
    ensures
        r@ == upper(s@),
{
    let v = characters(s);
    let mut r = String::new();
    let mut i: usize = 0;
    while i < v.len()
        invariant
            i <= v@.len(),
            r@ == upper(v@).take(i as int),
        decreases v@.len() - i,
    {
        r.push(to_upper_letter(v[i]));
        i = i + 1;
        assert(r@ =~= upper(v@).take(i as int));
    }
    assert(upper(v@).take(i as int) =~= upper(v@));
    r
}

/// Every character is an ASCII one.
pub open spec fn all_ascii(s: Seq<char>) -> bool {
    forall|i: int| 0 <= i < s.len() ==> (#[trigger] s[i] as u32) < 128
}

/// `s` in lower case, as `str::to_lowercase` writes it.
pub uninterp spec fn lowercase_of(s: Seq<char>) -> Seq<char>;

/// `str::to_lowercase`: the Unicode lower case of `s`. In text that is all ASCII
/// only the letters `A` to `Z` change, each into its small letter.
#[verifier::external_body]
pub(crate) fn to_lowercase(s: &str) -> (r: String)
    ensures
        r@ == lowercase_of(s@),
        all_ascii(s@) ==> r@ == lower(s@),
{
    s.to_lowercase()
}

/// `s` in upper case, as `str::to_uppercase` writes it.
pub uninterp spec fn uppercase_of(s: Seq<char>) -> Seq<char>;

/// `str::to_uppercase`: the Unicode upper case of `s`. In text that is all ASCII
/// only the letters `a` to `z` change, each into its capital.
#[verifier::external_body]
pub(crate) fn to_uppercase(s: &str) -> (r: String)
    ensures
        r@ == uppercase_of(s@),
        all_ascii(s@) ==> r@ == upper(s@),
{
    s.to_uppercase()
}

/// The two texts differ at most in the case of the letters `A` to `Z`.
pub open spec fn same_letters(a: Seq<char>, b: Seq<char>) -> bool {
    lower(a) == lower(b)
}

/// Texts are the same up to the case of letters with themselves, and with themselves in
/// capital or in small letters; what holds of one and another holds the other way round;
/// and texts of different lengths are not the same.
pub proof fn law_same_letters(a: Seq<char>, b: Seq<char>)
    ensures
        same_letters(a, a),
        same_letters(a, lower(a)) && same_letters(a, upper(a)),
        same_letters(a, b) <==> same_letters(b, a),
        same_letters(a, b) ==> a.len() == b.len(),
        same_letters(a, b) <==> upper(a) == upper(b),
{
    assert forall|c: char| #[trigger] lower_letter(lower_letter(c)) == lower_letter(c) by {}
    assert forall|c: char| #[trigger] lower_letter(upper_letter(c)) == lower_letter(c) by {}
    assert forall|c: char| #[trigger] upper_letter(lower_letter(c)) == upper_letter(c) by {}
    assert(lower(lower(a)) =~= lower(a));
    assert(lower(upper(a)) =~= lower(a));
    assert(lower(upper(b)) =~= lower(b));
    assert(upper(lower(a)) =~= upper(a));
    assert(upper(lower(b)) =~= upper(b));
    assert(lower(a).len() == a.len() && lower(b).len() == b.len());
}

pub fn eq_ignore_ascii_case(a: &str, b: &str) -> (r: bool)
    ensures
        r == same_letters(a@, b@),
{
    let (x, y) = (to_ascii_lowercase(a), to_ascii_lowercase(b));
    same(x.as_str(), y.as_str())
}

/// Whether a setting is switched on: "1", "true", "yes" or "y", in letters of either case.
pub fn is_yes(s: &str) -> (r: bool)
    ensures
        r == (lower(s@) == "1"@ || lower(s@) == "true"@ || lower(s@) == "yes"@ || lower(s@)
            == "y"@),
{
    let l = to_ascii_lowercase(s);
    same(l.as_str(), "1") || same(l.as_str(), "true") || same(l.as_str(), "yes") || same(
        l.as_str(),
        "y",
    )
}

/// `s` with every `from` replaced by `to`.
pub open spec fn replaced(s: Seq<char>, from: char, to: char) -> Seq<char> {
    Seq::new(
        s.len(),
        |i: int|
            if s[i] == from {
                to
            } else {
                s[i]
            },
    )
}

pub fn replace(s: &str, from: char, to: char) -> (r: String)
    ensures
        r@ == replaced(s@, from, to),
{
    let v = characters(s);
    let mut r = String::new();
    let mut i: usize = 0;
    while i < v.len()
        invariant
            i <= v@.len(),
            r@ == replaced(v@, from, to).take(i as int),
        decreases v@.len() - i,
    {
        r.push(
            if v[i] == from {
                to
            } else {
                v[i]
            },
        );
        i = i + 1;
        assert(r@ =~= replaced(v@, from, to).take(i as int));
    }
    assert(replaced(v@, from, to).take(i as int) =~= replaced(v@, from, to));
    r
}

/// `s` without the characters `c` at its end.
pub open spec fn without_end(s: Seq<char>, c: char) -> Seq<char>
    decreases s.len(),
{
    if s.len() > 0 && s.last() == c {
        without_end(s.drop_last(), c)
    } else {
        s
    }
}

pub fn trim_end(s: &str, c: char) -> (r: String)
    ensures
        r@ == without_end(s@, c),
{
    let v = characters(s);
    let mut n: usize = v.len();
    assert(v@.take(n as int) =~= v@);
    while n > 0 && v[n - 1] == c
        invariant
            n <= v@.len(),
            v@ == s@,
            without_end(v@, c) == without_end(v@.take(n as int), c),
        decreases n,
    {
        assert(v@.take(n as int).drop_last() =~= v@.take(n - 1));
        n = n - 1;
    }
    assert(v@.subrange(0, n as int) =~= v@.take(n as int));
    text_of(&v, 0, n)
}

/// A white space character of Unicode.
pub open spec fn is_space(c: char) -> bool {
    let n = c as u32;
    ||| 0x9 <= n <= 0xD
    ||| n == 0x20
    ||| n == 0x85
    ||| n == 0xA0
    ||| n == 0x1680
    ||| 0x2000 <= n <= 0x200A
    ||| n == 0x2028
    ||| n == 0x2029
    ||| n == 0x202F
    ||| n == 0x205F
    ||| n == 0x3000
}

/// Nothing but white space.
pub open spec fn blank(s: Seq<char>) -> bool {
    forall|i: int| 0 <= i < s.len() ==> is_space(#[trigger] s[i])
}

fn space(c: char) -> (r: bool)
    ensures
        r == is_space(c),
{
    let n: u32 = c as u32;
    (0x9 <= n && n <= 0xD) || n == 0x20 || n == 0x85 || n == 0xA0 || n == 0x1680 || (0x2000 <= n
        && n <= 0x200A) || n == 0x2028 || n == 0x2029 || n == 0x202F || n == 0x205F || n == 0x3000
}

/// Whether trimming leaves nothing.
pub fn is_blank(s: &str) -> (r: bool)
    ensures
        r == blank(s@),
{
    let v = characters(s);
    let mut i: usize = 0;
    while i < v.len()
        invariant
            i <= v@.len(),
            v@ == s@,
            forall|k: int| 0 <= k < i ==> is_space(#[trigger] v@[k]),
        decreases v@.len() - i,
    {
        if !space(v[i]) {
            return false;
        }
        i = i + 1;
    }
    true
}

/// `s` without white space at its start.
pub open spec fn trimmed_start(s: Seq<char>) -> Seq<char>
    decreases s.len(),
{
    if s.len() > 0 && is_space(s[0]) {
        trimmed_start(s.drop_first())
    } else {
        s
    }
}

/// `s` without white space at its end.
pub open spec fn trimmed_end(s: Seq<char>) -> Seq<char>
    decreases s.len(),
{
    if s.len() > 0 && is_space(s.last()) {
        trimmed_end(s.drop_last())
    } else {
        s
    }
}

/// `s` without white space at its start and its end.
pub open spec fn trimmed(s: Seq<char>) -> Seq<char> {
    trimmed_end(trimmed_start(s))
}

/// What is left by trimming stands in the text in one piece. Around it there is nothing
/// but white space, and it neither starts nor ends with any.
pub proof fn law_trimmed(s: Seq<char>) -> (from: int)
    ensures
        ({
            let t = trimmed(s);
            &&& 0 <= from <= from + t.len() <= s.len()
            &&& t == s.subrange(from, from + t.len())
            &&& forall|i: int| 0 <= i < from ==> is_space(#[trigger] s[i])
            &&& forall|i: int| from + t.len() <= i < s.len() ==> is_space(#[trigger] s[i])
            &&& t.len() > 0 ==> !is_space(t[0]) && !is_space(t.last())
        }),
{
    let from = lemma_trimmed_start(s);
    let rest = trimmed_start(s);
    lemma_trimmed_end(rest);
    let t = trimmed(s);
    assert(t =~= s.subrange(from, from + t.len()));
    assert forall|i: int| from + t.len() <= i < s.len() implies is_space(#[trigger] s[i]) by {
        assert(rest[i - from] == s[i]);
    }
    from
}

proof fn lemma_trimmed_start(s: Seq<char>) -> (from: int)
    ensures
        0 <= from <= s.len(),
        trimmed_start(s) == s.skip(from),
        forall|i: int| 0 <= i < from ==> is_space(#[trigger] s[i]),
        trimmed_start(s).len() > 0 ==> !is_space(trimmed_start(s)[0]),
    decreases s.len(),
{
    if s.len() > 0 && is_space(s[0]) {
        let rest = s.drop_first();
        let n = lemma_trimmed_start(rest);
        assert(rest.skip(n) =~= s.skip(n + 1));
        assert forall|i: int| 0 <= i < n + 1 implies is_space(#[trigger] s[i]) by {
            if i > 0 {
                assert(rest[i - 1] == s[i]);
            }
        }
        n + 1
    } else {
        assert(s.skip(0) =~= s);
        0
    }
}

proof fn lemma_trimmed_end(s: Seq<char>)
    ensures
        trimmed_end(s).len() <= s.len(),
        trimmed_end(s) == s.take(trimmed_end(s).len() as int),
        forall|i: int| trimmed_end(s).len() <= i < s.len() ==> is_space(#[trigger] s[i]),
        trimmed_end(s).len() > 0 ==> !is_space(trimmed_end(s).last()),
    decreases s.len(),
{
    if s.len() > 0 && is_space(s.last()) {
        let rest = s.drop_last();
        lemma_trimmed_end(rest);
        let n = trimmed_end(s).len() as int;
        assert(rest.take(n) =~= s.take(n));
        assert forall|i: int| n <= i < s.len() implies is_space(#[trigger] s[i]) by {
            if i < rest.len() {
                assert(rest[i] == s[i]);
            }
        }
    } else {
        assert(s.take(s.len() as int) =~= s);
    }
}

pub fn trim(s: &str) -> (r: String)
    ensures
        r@ == trimmed(s@),
{
    let v = characters(s);
    let mut from: usize = 0;
    assert(v@.skip(0) =~= v@);
    while from < v.len() && space(v[from])
        invariant
            from <= v@.len(),
            v@ == s@,
            trimmed_start(v@) == trimmed_start(v@.skip(from as int)),
        decreases v@.len() - from,
    {
        assert(v@.skip(from as int)[0] == v@[from as int]);
        assert(v@.skip(from as int).drop_first() =~= v@.skip(from + 1));
        from = from + 1;
    }
    let ghost start = v@.skip(from as int);
    proof {
        if from < v@.len() {
            assert(start[0] == v@[from as int]);
        }
        assert(trimmed_start(v@) == start);
    }
    let mut to: usize = v.len();
    assert(start.take(start.len() as int) =~= start);
    while to > from && space(v[to - 1])
        invariant
            from <= to <= v@.len(),
            start == v@.skip(from as int),
            trimmed_end(start) == trimmed_end(start.take(to - from)),
        decreases to - from,
    {
        assert(start.take(to - from).last() == v@[to - 1]);
        assert(start.take(to - from).drop_last() =~= start.take(to - from - 1));
        to = to - 1;
    }
    proof {
        if to > from {
            assert(start.take(to - from).last() == v@[to - 1]);
        }
        assert(v@.subrange(from as int, to as int) =~= start.take(to - from));
    }
    text_of(&v, from, to)
}

pub open spec fn is_digit(c: char) -> bool {
    '0' <= c && c <= '9'
}

pub open spec fn digit_value(c: char) -> nat {
    (c as u32 - '0' as u32) as nat
}

/// The number that the digits `s` write in base ten.
pub open spec fn value_of(s: Seq<char>) -> nat
    decreases s.len(),
{
    if s.len() == 0 {
        0
    } else {
        10 * value_of(s.drop_last()) + digit_value(s.last())
    }
}

/// The digits of `n` in base ten, without leading zeros.
pub open spec fn numeral(n: nat) -> Seq<char>
    decreases n,
{
    if n < 10 {
        seq![digit(n)]
    } else {
        numeral(n / 10).push(digit(n % 10))
    }
}

pub open spec fn digit(n: nat) -> char {
    ('0' as u8 + n) as u8 as char
}

/// `n` in base ten.
pub fn number(n: u64) -> (s: String)
    ensures
        s@ == numeral(n as nat),
    decreases n,
{
    let last = (48 + (n % 10) as u8) as char;
    let mut s = if n < 10 {
        String::new()
    } else {
        number(n / 10)
    };
    s.push(last);
    assert(n < 10 ==> s@ =~= numeral(n as nat));
    s
}

/// The digits of `n` in base ten, behind a sign if it is negative.
pub open spec fn signed_numeral(n: int) -> Seq<char> {
    if n < 0 {
        "-"@ + numeral((-n) as nat)
    } else {
        numeral(n as nat)
    }
}

/// A negative number is written as its opposite behind a sign, and no other has a sign.
pub proof fn law_signed_numerals(n: nat)
    ensures
        signed_numeral(n as int) == numeral(n),
        n > 0 ==> signed_numeral(-(n as int)) == seq!['-'] + numeral(n),
{
    reveal_strlit("-");
    assert("-"@ =~= seq!['-']);
}

/// `n` in base ten.
pub fn signed_number(n: i64) -> (s: String)
    ensures
        s@ == signed_numeral(n as int),
{
    if n < 0 {
        let mut s = "-".to_owned();
        let size: u64 = if n == i64::MIN {
            0x8000_0000_0000_0000
        } else {
            (-n) as u64
        };
        s.append(number(size).as_str());
        s
    } else {
        number(n as u64)
    }
}

/// Reading a numeral gives the number back.
pub proof fn law_numeral_reads_back(n: nat)
    ensures
        value_of(numeral(n)) == n,
        forall|i: int| 0 <= i < numeral(n).len() ==> is_digit(#[trigger] numeral(n)[i]),
        numeral(n).len() > 0,
    decreases n,
{
    if n < 10 {
        assert(numeral(n).drop_last() =~= Seq::empty());
        assert(value_of(Seq::empty()) == 0);
    } else {
        law_numeral_reads_back(n / 10);
        assert(numeral(n).drop_last() =~= numeral(n / 10));
    }
}

/// How many digits stand in `v` from position `i` on.
pub open spec fn digits_from(v: Seq<char>, i: int) -> nat
    decreases v.len() - i,
{
    if i < 0 || i >= v.len() || !is_digit(v[i]) {
        0
    } else {
        1 + digits_from(v, i + 1)
    }
}

/// Digits up to a place where there is none are as many as there are places.
pub proof fn lemma_digits_from(v: Seq<char>, i: int, end: int)
    requires
        0 <= i <= end <= v.len(),
        forall|k: int| i <= k < end ==> is_digit(#[trigger] v[k]),
        end < v.len() ==> !is_digit(v[end]),
    ensures
        digits_from(v, i) == end - i,
    decreases end - i,
{
    if i < end {
        lemma_digits_from(v, i + 1, end);
    }
}

/// The digits that stand in `s` from position `i` on.
pub open spec fn run_of_digits(s: Seq<char>, i: int) -> Seq<char> {
    s.subrange(i, i + digits_from(s, i))
}

/// The number that the digits from position `from` on write, if there is at
/// least one digit and it fits in 64 bits.
pub fn number_at(v: &Vec<char>, from: usize) -> (r: Option<u64>)
    requires
        from <= v@.len(),
    ensures
        r == ({
            let run = run_of_digits(v@, from as int);
            if run.len() > 0 && value_of(run) <= u64::MAX {
                Some(value_of(run) as u64)
            } else {
                None
            }
        }),
        from + digits_from(v@, from as int) <= v@.len(),
{
    let mut i: usize = from;
    let mut n: u64 = 0;
    let mut fits = true;
    proof {
        assert(v@.subrange(from as int, from as int) =~= Seq::empty());
    }
    while i < v.len() && '0' <= v[i] && v[i] <= '9'
        invariant
            from <= i <= v@.len(),
            digits_from(v@, from as int) == i - from + digits_from(v@, i as int),
            fits ==> n == value_of(v@.subrange(from as int, i as int)),
            !fits ==> value_of(v@.subrange(from as int, i as int)) > u64::MAX,
        decreases v@.len() - i,
    {
        let d: u64 = (v[i] as u32 - 48) as u64;
        proof {
            let run = v@.subrange(from as int, i + 1);
            assert(run.drop_last() =~= v@.subrange(from as int, i as int));
        }
        if !fits || n > (u64::MAX - d) / 10 {
            fits = false;
        } else {
            n = n * 10 + d;
        }
        i = i + 1;
    }
    if i == from || !fits {
        None
    } else {
        Some(n)
    }
}

} // verus!
