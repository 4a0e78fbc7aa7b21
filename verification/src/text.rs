//! Character-level helpers shared by the path algebra and the content filters.
//!
//! Strings are reasoned about through their view, a sequence of `char`.

use vstd::prelude::*;

verus! {

/// `String::push` of the standard library: the char is appended at the end
/// and nothing else changes, as its documentation states.
pub assume_specification[ String::push ](s: &mut String, c: char)
    ensures
        final(s)@ == old(s)@.push(c),
;

/// The chars of `s`, in order.
pub fn chars_of(s: &str) -> (v: Vec<char>)
    ensures
        v@ == s@,
{
    let mut v: Vec<char> = Vec::new();
    for c in it: s.chars()
        invariant
            it.seq() == s@,
            v@ == s@.take(it.index() as int),
    {
        v.push(c);
    }
    v
}

/// The string spelled by `v[from..to]`.
pub(crate) fn substring(v: &Vec<char>, from: usize, to: usize) -> (s: String)
    requires
        from <= to <= v.len(),
    ensures
        s@ == v@.subrange(from as int, to as int),
{
    let mut s = String::new();
    let mut i: usize = from;
    while i < to
        invariant
            from <= i <= to <= v.len(),
            s@ == v@.subrange(from as int, i as int),
        decreases to - i,
    {
        s.push(v[i]);
        i = i + 1;
    }
    s
}

/// The string spelled by `v`.
pub fn string_of(v: &Vec<char>) -> (s: String)
    ensures
        s@ == v@,
{
    let s = substring(v, 0, v.len());
    assert(v@.subrange(0, v.len() as int) == v@);
    s
}

/// Appends every char of `tail` to `out`.
pub fn push_all(out: &mut Vec<char>, tail: &Vec<char>)
    ensures
        final(out)@ == old(out)@ + tail@,
{
    let mut i: usize = 0;
    while i < tail.len()
        invariant
            i <= tail.len(),
            out@ == old(out)@ + tail@.take(i as int),
        decreases tail.len() - i,
    {
        out.push(tail[i]);
        i = i + 1;
    }
    assert(tail@.take(tail.len() as int) == tail@);
}

/// Appends every char of `tail` to `out`.
pub fn push_str(out: &mut Vec<char>, tail: &str)
    ensures
        final(out)@ == old(out)@ + tail@,
{
    let t = chars_of(tail);
    push_all(out, &t);
}

/// A text made of a beginning, a middle and an end.
pub fn framed(before: &str, middle: &str, after: &str) -> (r: String)
    ensures
        r@ == before@ + middle@ + after@,
{
    let mut out: Vec<char> = Vec::new();
    push_str(&mut out, before);
    push_str(&mut out, middle);
    push_str(&mut out, after);
    assert(out@ =~= before@ + middle@ + after@);
    string_of(&out)
}

/// Whether the two texts hold the same chars.
pub fn same_chars(a: &Vec<char>, b: &Vec<char>) -> (r: bool)
    ensures
        r == (a@ == b@),
{
    if a.len() != b.len() {
        return false;
    }
    let mut i: usize = 0;
    while i < a.len()
        invariant
            i <= a.len(),
            a.len() == b.len(),
            a@.take(i as int) == b@.take(i as int),
        decreases a.len() - i,
    {
        if a[i] != b[i] {
            return false;
        }
        assert(a@.take(i + 1) == a@.take(i as int).push(a@[i as int]));
        assert(b@.take(i + 1) == b@.take(i as int).push(b@[i as int]));
        i = i + 1;
    }
    assert(a@.take(a.len() as int) == a@);
    assert(b@.take(b.len() as int) == b@);
    true
}

/// Whether the two strings hold the same chars.
pub fn same_text(a: &str, b: &str) -> (r: bool)
    ensures
        r == (a@ == b@),
{
    let x = chars_of(a);
    let y = chars_of(b);
    same_chars(&x, &y)
}

/// Whether `pat` occurs in `s` at position `at`.
pub open spec fn occurs_at(s: Seq<char>, at: int, pat: Seq<char>) -> bool {
    &&& 0 <= at
    &&& at + pat.len() <= s.len()
    &&& s.subrange(at, at + pat.len()) == pat
}

/// Executable form of [`occurs_at`].
pub(crate) fn matches_at(s: &Vec<char>, at: usize, pat: &Vec<char>) -> (r: bool)
    requires
        at <= s.len(),
    ensures
        r == occurs_at(s@, at as int, pat@),
{
    if pat.len() > s.len() - at {
        return false;
    }
    let mut i: usize = 0;
    while i < pat.len()
        invariant
            i <= pat.len(),
            at + pat.len() <= s.len(),
            s@.subrange(at as int, at + i) == pat@.take(i as int),
        decreases pat.len() - i,
    {
        if s[at + i] != pat[i] {
            assert(s@.subrange(at as int, at + pat.len())[i as int] != pat@[i as int]);
            return false;
        }
        assert(s@.subrange(at as int, at + i + 1) == s@.subrange(at as int, at + i).push(
            s@[at + i],
        ));
        assert(pat@.take(i + 1) == pat@.take(i as int).push(pat@[i as int]));
        i = i + 1;
    }
    assert(pat@.take(pat.len() as int) == pat@);
    true
}

/// Whether `s` begins with `pat`.
pub open spec fn has_prefix(s: Seq<char>, pat: Seq<char>) -> bool {
    occurs_at(s, 0, pat)
}

/// Executable form of [`has_prefix`].
pub fn starts_with(s: &str, pat: &str) -> (r: bool)
    ensures
        r == has_prefix(s@, pat@),
{
    let x = chars_of(s);
    let y = chars_of(pat);
    matches_at(&x, 0, &y)
}

/// The char that writes the digit `d` in bases up to sixteen, lower case.
pub open spec fn digit_char(d: int) -> char {
    if d == 0 {
        '0'
    } else if d == 1 {
        '1'
    } else if d == 2 {
        '2'
    } else if d == 3 {
        '3'
    } else if d == 4 {
        '4'
    } else if d == 5 {
        '5'
    } else if d == 6 {
        '6'
    } else if d == 7 {
        '7'
    } else if d == 8 {
        '8'
    } else if d == 9 {
        '9'
    } else if d == 10 {
        'a'
    } else if d == 11 {
        'b'
    } else if d == 12 {
        'c'
    } else if d == 13 {
        'd'
    } else if d == 14 {
        'e'
    } else {
        'f'
    }
}

/// Executable form of [`digit_char`].
pub(crate) fn digit(d: u64) -> (c: char)
    requires
        d < 16,
    ensures
        c == digit_char(d as int),
{
    if d == 0 {
        '0'
    } else if d == 1 {
        '1'
    } else if d == 2 {
        '2'
    } else if d == 3 {
        '3'
    } else if d == 4 {
        '4'
    } else if d == 5 {
        '5'
    } else if d == 6 {
        '6'
    } else if d == 7 {
        '7'
    } else if d == 8 {
        '8'
    } else if d == 9 {
        '9'
    } else if d == 10 {
        'a'
    } else if d == 11 {
        'b'
    } else if d == 12 {
        'c'
    } else if d == 13 {
        'd'
    } else if d == 14 {
        'e'
    } else {
        'f'
    }
}

/// Decimal notation of `n`: most significant digit first, no leading zeros,
/// zero written as a single `0`.
pub open spec fn decimal(n: nat) -> Seq<char>
    decreases n,
{
    if n < 10 {
        seq![digit_char(n as int)]
    } else {
        decimal(n / 10).push(digit_char((n % 10) as int))
    }
}

/// Lower-case hexadecimal notation of `n`: most significant digit first, no
/// leading zeros, zero written as a single `0`.
pub open spec fn lower_hex(n: nat) -> Seq<char>
    decreases n,
{
    if n < 16 {
        seq![digit_char(n as int)]
    } else {
        lower_hex(n / 16).push(digit_char((n % 16) as int))
    }
}

/// Appends the decimal notation of `n` to `out`.
pub fn push_decimal(out: &mut Vec<char>, n: u64)
    ensures
        final(out)@ == old(out)@ + decimal(n as nat),
    decreases n,
{
    if n < 10 {
        out.push(digit(n));
        assert(old(out)@.push(digit_char(n as int)) == old(out)@ + seq![digit_char(n as int)]);
    } else {
        push_decimal(out, n / 10);
        out.push(digit(n % 10));
        assert((old(out)@ + decimal((n / 10) as nat)).push(digit_char((n % 10) as int)) == old(
            out,
        )@ + decimal(n as nat));
    }
}

/// Appends the lower-case hexadecimal notation of `n` to `out`.
pub fn push_hex(out: &mut Vec<char>, n: u64)
    ensures
        final(out)@ == old(out)@ + lower_hex(n as nat),
    decreases n,
{
    if n < 16 {
        out.push(digit(n));
        assert(old(out)@.push(digit_char(n as int)) == old(out)@ + seq![digit_char(n as int)]);
    } else {
        push_hex(out, n / 16);
        out.push(digit(n % 16));
        assert((old(out)@ + lower_hex((n / 16) as nat)).push(digit_char((n % 16) as int)) == old(
            out,
        )@ + lower_hex(n as nat));
    }
}

/// Decimal notation of `n` as a string.
pub fn decimal_string(n: u64) -> (s: String)
    ensures
        s@ == decimal(n as nat),
{
    let mut out: Vec<char> = Vec::new();
    push_decimal(&mut out, n);
    assert(Seq::<char>::empty() + decimal(n as nat) == decimal(n as nat));
    string_of(&out)
}

/// Lower-case hexadecimal notation of `n` as a string.
pub fn hex_string(n: u64) -> (s: String)
    ensures
        s@ == lower_hex(n as nat),
{
    let mut out: Vec<char> = Vec::new();
    push_hex(&mut out, n);
    assert(Seq::<char>::empty() + lower_hex(n as nat) == lower_hex(n as nat));
    string_of(&out)
}

/// `s` with every occurrence of `pat` replaced by `with`, scanning from the
/// left and never looking again at what was already replaced. An empty
/// `pat` matches before every char and at the end.
pub open spec fn replaced(s: Seq<char>, pat: Seq<char>, with: Seq<char>) -> Seq<char>
    decreases s.len(),
{
    if pat.len() == 0 {
        if s.len() == 0 {
            with
        } else {
            with + seq![s[0]] + replaced(s.drop_first(), pat, with)
        }
    } else if s.len() < pat.len() {
        s
    } else if has_prefix(s, pat) {
        with + replaced(s.skip(pat.len() as int), pat, with)
    } else {
        seq![s[0]] + replaced(s.drop_first(), pat, with)
    }
}

/// Executable form of [`replaced`].
pub fn replace_all(s: &str, pat: &str, with: &str) -> (r: String)
    ensures
        r@ == replaced(s@, pat@, with@),
{
    let text = chars_of(s);
    let p = chars_of(pat);
    let w = chars_of(with);
    let mut out: Vec<char> = Vec::new();
    let mut i: usize = 0;
    assert(text@.skip(0) == text@);
    assert(out@ + replaced(text@, p@, w@) == replaced(text@, p@, w@));
    while i < text.len()
        invariant
            i <= text.len(),
            text@ == s@,
            p@ == pat@,
            w@ == with@,
            out@ + replaced(text@.skip(i as int), p@, w@) == replaced(text@, p@, w@),
        decreases text.len() - i,
    {
        let ghost rest = text@.skip(i as int);
        assert(rest.len() == text.len() - i);
        assert(rest[0] == text@[i as int]);
        if p.len() == 0 {
            push_all(&mut out, &w);
            out.push(text[i]);
            assert(rest.drop_first() == text@.skip(i + 1));
            i = i + 1;
        } else if matches_at(&text, i, &p) {
            assert(rest.subrange(0, p.len() as int) == text@.subrange(i as int, i + p.len()));
            push_all(&mut out, &w);
            assert(rest.skip(p.len() as int) == text@.skip(i + p.len()));
            i = i + p.len();
        } else {
            proof {
                if rest.len() >= p.len() {
                    assert(rest.subrange(0, p.len() as int) == text@.subrange(
                        i as int,
                        i + p.len(),
                    ));
                }
            }
            if text.len() - i < p.len() {
                push_rest(&mut out, &text, i);
                assert(out@ == replaced(text@, p@, w@));
                return string_of(&out);
            }
            out.push(text[i]);
            assert(rest.drop_first() == text@.skip(i + 1));
            i = i + 1;
        }
    }
    assert(text@.skip(text.len() as int) == Seq::<char>::empty());
    if p.len() == 0 {
        push_all(&mut out, &w);
    }
    string_of(&out)
}

/// Appends `v[from..]` to `out`.
pub(crate) fn push_rest(out: &mut Vec<char>, v: &Vec<char>, from: usize)
    requires
        from <= v.len(),
    ensures
        final(out)@ == old(out)@ + v@.skip(from as int),
{
    let mut i: usize = from;
    while i < v.len()
        invariant
            from <= i <= v.len(),
            out@ == old(out)@ + v@.subrange(from as int, i as int),
        decreases v.len() - i,
    {
        out.push(v[i]);
        i = i + 1;
    }
    assert(v@.subrange(from as int, v.len() as int) == v@.skip(from as int));
}

/// Whether `a` comes before `b` in the order of strings: at the first place
/// where they differ `a` has the smaller char, or `a` ends there and `b`
/// goes on.
pub open spec fn precedes(a: Seq<char>, b: Seq<char>) -> bool
    decreases a.len(),
{
    if b.len() == 0 {
        false
    } else if a.len() == 0 {
        true
    } else if a[0] != b[0] {
        a[0] < b[0]
    } else {
        precedes(a.drop_first(), b.drop_first())
    }
}

/// How one text stands to another in the order of strings.
#[derive(Clone, Copy, Debug, PartialEq, Eq, Structural)]
pub enum Order {
    /// The first comes before the second.
    Before,
    /// They are the same text.
    Same,
    /// The first comes after the second.
    After,
}

/// How `a` stands to `b` in the order of strings.
pub fn compare(a: &Vec<char>, b: &Vec<char>) -> (r: Order)
    ensures
        r is Before <==> precedes(a@, b@),
        r is Same <==> a@ == b@,
        r is After <==> precedes(b@, a@),
{
    let mut i: usize = 0;
    assert(a@.skip(0) =~= a@ && b@.skip(0) =~= b@);
    while i < a.len() && i < b.len()
        invariant
            i <= a.len(),
            i <= b.len(),
            a@.take(i as int) == b@.take(i as int),
            precedes(a@, b@) == precedes(a@.skip(i as int), b@.skip(i as int)),
            precedes(b@, a@) == precedes(b@.skip(i as int), a@.skip(i as int)),
        decreases a.len() - i,
    {
        let ghost x = a@.skip(i as int);
        let ghost y = b@.skip(i as int);
        assert(x[0] == a@[i as int] && y[0] == b@[i as int]);
        if a[i] != b[i] {
            assert(a@ != b@);
            if a[i] < b[i] {
                return Order::Before;
            } else {
                return Order::After;
            }
        }
        assert(x.drop_first() =~= a@.skip(i + 1));
        assert(y.drop_first() =~= b@.skip(i + 1));
        assert(a@.take(i + 1) =~= a@.take(i as int).push(a@[i as int]));
        assert(b@.take(i + 1) =~= b@.take(i as int).push(b@[i as int]));
        i = i + 1;
    }
    if i < b.len() {
        assert(a@.len() != b@.len());
        Order::Before
    } else if i < a.len() {
        assert(a@.len() != b@.len());
        Order::After
    } else {
        assert(a@.take(a.len() as int) =~= a@);
        assert(b@.take(b.len() as int) =~= b@);
        Order::Same
    }
}

/// Hexadecimal notation is never empty and holds digits only: no dot and no
/// slash of either kind.
pub proof fn lemma_lower_hex_digits(n: nat)
    ensures
        lower_hex(n).len() >= 1,
        forall|i: int|
            0 <= i < lower_hex(n).len() ==> (#[trigger] lower_hex(n)[i]) != '.' && lower_hex(n)[i]
                != '/' && lower_hex(n)[i] != '\\',
    decreases n,
{
    if n >= 16 {
        lemma_lower_hex_digits(n / 16);
    }
}

} // verus!
