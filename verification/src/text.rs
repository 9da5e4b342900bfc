//! Characters and strings: the classes of characters that the grammars of this
//! crate are built from, searching, and conversions between `str`, `String`
//! and vectors of characters.

use vstd::prelude::*;

verus! {

/// `String::push` of the standard library.
///
/// Trusted: the string afterwards is the string before with `c` appended at
/// its end.
pub assume_specification[ String::push ](s: &mut String, c: char)
    ensures
        final(s)@ == old(s)@.push(c),
;

/// A lowercase letter of the basic alphabet.
pub open spec fn is_lower(c: char) -> bool {
    'a' <= c <= 'z'
}

/// An uppercase letter of the basic alphabet.
pub open spec fn is_upper(c: char) -> bool {
    'A' <= c <= 'Z'
}

/// A decimal digit.
pub open spec fn is_digit(c: char) -> bool {
    '0' <= c <= '9'
}

/// The alphabets of the grammars.
#[derive(Debug, Clone, Copy, PartialEq, Eq, Structural)]
pub enum CharClass {
    /// Decimal digits.
    Digit,
    /// Lowercase hexadecimal digits.
    Hex,
    /// Letters of either case, digits, `.` and `-`: a host name.
    Host,
    /// Lowercase letters, digits, `.`, `_` and `-`: one component of a path.
    Component,
    /// The characters of a component, and `/` between components.
    Path,
}

/// Whether `c` belongs to the alphabet `k`.
pub open spec fn in_class(k: CharClass, c: char) -> bool {
    match k {
        CharClass::Digit => is_digit(c),
        CharClass::Hex => is_digit(c) || 'a' <= c <= 'f',
        CharClass::Host => is_lower(c) || is_upper(c) || is_digit(c) || c == '.' || c == '-',
        CharClass::Component => is_lower(c) || is_digit(c) || c == '.' || c == '_' || c == '-',
        CharClass::Path => is_lower(c) || is_digit(c) || c == '.' || c == '_' || c == '-' || c
            == '/',
    }
}

/// Whether every character of `s` belongs to the alphabet `k`.
pub open spec fn all_in(s: Seq<char>, k: CharClass) -> bool {
    forall|i: int| 0 <= i < s.len() ==> in_class(k, #[trigger] s[i])
}

/// Decides `in_class`.
pub fn has_class(k: CharClass, c: char) -> (b: bool)
    ensures
        b == in_class(k, c),
{
    let lower = c >= 'a' && c <= 'z';
    let upper = c >= 'A' && c <= 'Z';
    let digit = c >= '0' && c <= '9';
    match k {
        CharClass::Digit => digit,
        CharClass::Hex => digit || (c >= 'a' && c <= 'f'),
        CharClass::Host => lower || upper || digit || c == '.' || c == '-',
        CharClass::Component => lower || digit || c == '.' || c == '_' || c == '-',
        CharClass::Path => lower || digit || c == '.' || c == '_' || c == '-' || c == '/',
    }
}

/// Decides `all_in`.
pub fn check_all(v: &Vec<char>, k: CharClass) -> (b: bool)
    ensures
        b == all_in(v@, k),
{
    let mut i: usize = 0;
    while i < v.len()
        invariant
            0 <= i <= v@.len(),
            forall|j: int| 0 <= j < i ==> in_class(k, #[trigger] v@[j]),
        decreases v@.len() - i,
    {
        if !has_class(k, v[i]) {
            return false;
        }
        i += 1;
    }
    true
}

/// The first index at or after `from` where `s` holds `a` or `b`; `s.len()` if
/// there is none.
pub open spec fn index_of_any(s: Seq<char>, a: char, b: char, from: int) -> int
    decreases s.len() - from,
{
    if from < 0 || from >= s.len() {
        s.len() as int
    } else if s[from] == a || s[from] == b {
        from
    } else {
        index_of_any(s, a, b, from + 1)
    }
}

/// The first index at or after `from` where `s` holds `c`; `s.len()` if there
/// is none.
pub open spec fn index_of(s: Seq<char>, c: char, from: int) -> int {
    index_of_any(s, c, c, from)
}

/// What `index_of_any` returns: nothing before it matches, and it matches
/// unless it is the length.
pub proof fn lemma_index_of_any(s: Seq<char>, a: char, b: char, from: int)
    requires
        0 <= from <= s.len(),
    ensures
        from <= index_of_any(s, a, b, from) <= s.len(),
        forall|i: int| from <= i < index_of_any(s, a, b, from) ==> s[i] != a && s[i] != b,
        index_of_any(s, a, b, from) < s.len() ==> {
            let k = index_of_any(s, a, b, from);
            s[k] == a || s[k] == b
        },
    decreases s.len() - from,
{
    if from < s.len() && !(s[from] == a || s[from] == b) {
        lemma_index_of_any(s, a, b, from + 1);
    }
}

/// An index with the properties of `lemma_index_of_any` is the one that
/// `index_of_any` returns.
pub proof fn lemma_index_of_any_is(s: Seq<char>, a: char, b: char, from: int, k: int)
    requires
        0 <= from <= k <= s.len(),
        forall|i: int| from <= i < k ==> s[i] != a && s[i] != b,
        k < s.len() ==> s[k] == a || s[k] == b,
    ensures
        index_of_any(s, a, b, from) == k,
    decreases k - from,
{
    if from < k {
        lemma_index_of_any_is(s, a, b, from + 1, k);
    }
}

/// Searches `v` from `from` on for `a` or `b`.
pub fn find_any(v: &Vec<char>, a: char, b: char, from: usize) -> (k: usize)
    requires
        from <= v@.len(),
    ensures
        k == index_of_any(v@, a, b, from as int),
        from <= k <= v@.len(),
{
    let mut k: usize = from;
    while k < v.len() && !(v[k] == a || v[k] == b)
        invariant
            from <= k <= v@.len(),
            forall|i: int| from <= i < k ==> v@[i] != a && v@[i] != b,
        decreases v@.len() - k,
    {
        k += 1;
    }
    proof {
        lemma_index_of_any_is(v@, a, b, from as int, k as int);
    }
    k
}

/// The characters of `s`, in order.
pub fn chars_of(s: &str) -> (v: Vec<char>)
    ensures
        v@ == s@,
{
    let mut v: Vec<char> = Vec::new();
    for c in it: s.chars()
        invariant
            v@ == it.seq().take(it.index() as int),
            it.seq() == s@,
    {
        v.push(c);
    }
    v
}

/// A copy of `v[from..to]`.
pub fn slice_of(v: &Vec<char>, from: usize, to: usize) -> (w: Vec<char>)
    requires
        from <= to <= v@.len(),
    ensures
        w@ == v@.subrange(from as int, to as int),
{
    let mut w: Vec<char> = Vec::new();
    let mut i: usize = from;
    while i < to
        invariant
            from <= i <= to <= v@.len(),
            w@ == v@.subrange(from as int, i as int),
        decreases to - i,
    {
        w.push(v[i]);
        i += 1;
        assert(v@.subrange(from as int, i as int) == v@.subrange(from as int, i - 1).push(
            v@[i - 1],
        ));
    }
    w
}

/// The string whose characters are those of `v`.
pub fn string_from(v: &Vec<char>) -> (s: String)
    ensures
        s@ == v@,
{
    let mut s = String::new();
    let mut i: usize = 0;
    while i < v.len()
        invariant
            0 <= i <= v@.len(),
            s@ == v@.take(i as int),
        decreases v@.len() - i,
    {
        s.push(v[i]);
        i += 1;
        assert(v@.take(i as int) == v@.take(i - 1).push(v@[i - 1]));
    }
    assert(v@.take(v@.len() as int) == v@);
    s
}

/// Whether `v[from..]` begins with the characters of `p`.
pub fn starts_with_at(v: &Vec<char>, from: usize, p: &str) -> (b: bool)
    requires
        from <= v@.len(),
    ensures
        b == (from + p@.len() <= v@.len() && v@.subrange(from as int, from + p@.len()) == p@),
{
    let pc = chars_of(p);
    if pc.len() > v.len() - from {
        return false;
    }
    let mut i: usize = 0;
    while i < pc.len()
        invariant
            from + pc@.len() <= v@.len() <= usize::MAX,
            pc@ == p@,
            0 <= i <= pc@.len(),
            forall|j: int| 0 <= j < i ==> v@[from + j] == pc@[j],
        decreases pc@.len() - i,
    {
        if v[from + i] != pc[i] {
            assert(v@.subrange(from as int, from + p@.len())[i as int] != p@[i as int]);
            return false;
        }
        i += 1;
    }
    assert(v@.subrange(from as int, from + p@.len()) =~= p@);
    true
}

/// Whether two strings hold the same characters.
pub fn str_eq(a: &str, b: &str) -> (e: bool)
    ensures
        e == (a@ == b@),
{
    let x = chars_of(a);
    let y = chars_of(b);
    if x.len() != y.len() {
        return false;
    }
    let e = starts_with_at(&x, 0, b);
    assert(x@.subrange(0, x@.len() as int) =~= x@);
    e
}

/// The decimal digit for `n`, which is below 10.
pub open spec fn digit_char(n: nat) -> char {
    (n + 48) as char
}

/// Whether `s` is a number in decimal digits: at least one digit, and
/// nothing else.
pub open spec fn is_decimal(s: Seq<char>) -> bool {
    s.len() > 0 && all_in(s, CharClass::Digit)
}

/// The number that the decimal digits `s` spell.
pub open spec fn decimal_value(s: Seq<char>) -> nat
    decreases s.len(),
{
    if s.len() == 0 {
        0
    } else {
        10 * decimal_value(s.drop_last()) + (s.last() as int - 48) as nat
    }
}

/// The decimal digits of `n`, without zeros in front.
pub open spec fn decimal_of(n: nat) -> Seq<char>
    decreases n,
{
    if n < 10 {
        seq![digit_char(n)]
    } else {
        decimal_of(n / 10).push(digit_char(n % 10))
    }
}

/// The digits of a number spell that number.
pub proof fn lemma_decimal_roundtrip(n: nat)
    ensures
        is_decimal(decimal_of(n)),
        decimal_value(decimal_of(n)) == n,
    decreases n,
{
    let s = decimal_of(n);
    if n < 10 {
        assert(s.drop_last() =~= Seq::<char>::empty());
        assert(decimal_value(s.drop_last()) == 0);
        assert(s.last() == digit_char(n));
    } else {
        lemma_decimal_roundtrip(n / 10);
        let front = decimal_of(n / 10);
        assert(s.drop_last() =~= front);
        assert(s.last() == digit_char(n % 10));
        assert forall|i: int| 0 <= i < s.len() implies in_class(CharClass::Digit, #[trigger] s[i]) by {
            if i < front.len() {
                assert(s[i] == front[i]);
            }
        }
    }
}

/// A number in digits is no smaller than the number that any beginning of
/// it spells.
pub proof fn lemma_decimal_grows(s: Seq<char>, i: int)
    requires
        all_in(s, CharClass::Digit),
        0 <= i <= s.len(),
    ensures
        decimal_value(s.take(i)) <= decimal_value(s),
    decreases s.len() - i,
{
    if i < s.len() {
        lemma_decimal_grows(s, i + 1);
        let t = s.take(i + 1);
        assert(t.drop_last() =~= s.take(i));
        assert(in_class(CharClass::Digit, s[i]));
        assert(t.last() == s[i]);
    } else {
        assert(s.take(i) =~= s);
    }
}

/// Reads a number in decimal digits, if `v` is one and it fits.
pub fn parse_decimal(v: &Vec<char>) -> (r: Option<u64>)
    ensures
        r is Some <==> is_decimal(v@) && decimal_value(v@) <= u64::MAX,
        r matches Some(n) ==> n == decimal_value(v@),
{
    if v.len() == 0 || !check_all(v, CharClass::Digit) {
        return None;
    }
    let mut n: u64 = 0;
    let mut i: usize = 0;
    assert(v@.take(0) =~= Seq::<char>::empty());
    while i < v.len()
        invariant
            0 <= i <= v@.len(),
            all_in(v@, CharClass::Digit),
            n == decimal_value(v@.take(i as int)),
        decreases v@.len() - i,
    {
        let c = v[i];
        assert(in_class(CharClass::Digit, v@[i as int]));
        let d: u64 = (c as u32 - 48) as u64;
        proof {
            let t = v@.take(i + 1);
            assert(t.drop_last() =~= v@.take(i as int));
            assert(t.last() == c);
            lemma_decimal_grows(v@, i + 1);
        }
        if n > (u64::MAX - d) / 10 {
            return None;
        }
        n = n * 10 + d;
        i += 1;
    }
    assert(v@.take(v@.len() as int) =~= v@);
    Some(n)
}

/// Appends the decimal digits of `n` to `s`.
pub fn push_decimal(s: &mut String, n: u64)
    ensures
        final(s)@ == old(s)@ + decimal_of(n as nat),
    decreases n,
{
    if n >= 10 {
        push_decimal(s, n / 10);
    }
    let d = (n % 10) as u8;
    let c = (d + 48) as char;
    s.push(c);
    assert(s@ =~= old(s)@ + decimal_of(n as nat));
}

} // verus!
