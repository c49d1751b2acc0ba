//! The few operations on text that names and URLs are built from.
use vstd::prelude::*;
use vstd::string::*;

verus! {

/// `String::push`: the text afterwards is the text before with the character
/// at its end.
pub assume_specification[ String::push ](text: &mut String, ch: char)
    ensures
        final(text)@ == old(text)@.push(ch),
;

/// The decimal digits of a number, without leading zeros.
pub open spec fn decimal(n: nat) -> Seq<char>
    decreases n,
{
    if n < 10 {
        seq![digit(n)]
    } else {
        decimal(n / 10).push(digit(n % 10))
    }
}

/// The character of a digit.
pub open spec fn digit(d: nat) -> char {
    if d == 0 {
        '0'
    } else if d == 1 {
        '1'
    } else if d == 2 {
        '2'
    } else if d == 3 {
        '3'
    } else if d == 4 {
        '4'
    } else if d == 5 {
        '5'
    } else if d == 6 {
        '6'
    } else if d == 7 {
        '7'
    } else if d == 8 {
        '8'
    } else {
        '9'
    }
}

/// A qualified name as a path: from left to right every `::` becomes `/`.
pub open spec fn slashed(s: Seq<char>) -> Seq<char>
    decreases s.len(),
{
    if s.len() == 0 {
        s
    } else if s.len() >= 2 && s[0] == ':' && s[1] == ':' {
        seq!['/'] + slashed(s.skip(2))
    } else {
        seq![s[0]] + slashed(s.skip(1))
    }
}

/// Text without the slashes at its end.
pub open spec fn trimmed(s: Seq<char>) -> Seq<char>
    decreases s.len(),
{
    if s.len() > 0 && s.last() == '/' {
        trimmed(s.drop_last())
    } else {
        s
    }
}

pub fn digit_char(d: u64) -> (c: char)
    requires
        d < 10,
    ensures
        c == digit(d as nat),
{
    match d {
        0 => '0',
        1 => '1',
        2 => '2',
        3 => '3',
        4 => '4',
        5 => '5',
        6 => '6',
        7 => '7',
        8 => '8',
        _ => '9',
    }
}

/// Writes a number in decimal.
pub fn decimal_text(n: u64) -> (s: String)
    ensures
        s@ == decimal(n as nat),
    decreases n,
{
    if n < 10 {
        let mut s = String::new();
        s.push(digit_char(n));
        assert(s@ =~= seq![digit(n as nat)]);
        s
    } else {
        let mut s = decimal_text(n / 10);
        s.push(digit_char(n % 10));
        s
    }
}

/// The characters of a text.
pub fn chars_of(s: &str) -> (v: Vec<char>)
    ensures
        v@ == s@,
{
    let mut v: Vec<char> = Vec::new();
    for c in it: s.chars()
        invariant
            v@ == it.seq().take(it.index() as int),
            it.seq() == s@,
    {
        v.push(c);
    }
    v
}

/// Copies a text.
pub fn copied(s: &str) -> (t: String)
    ensures
        t@ == s@,
{
    s.to_owned()
}

/// The text between two positions.
pub fn part_of(chars: &Vec<char>, start: usize, end: usize) -> (t: String)
    requires
        start <= end <= chars@.len(),
    ensures
        t@ == chars@.subrange(start as int, end as int),
{
    let mut t = String::new();
    assert(t@ =~= chars@.subrange(start as int, start as int));
    for i in start..end
        invariant
            start <= end <= chars@.len(),
            t@ == chars@.subrange(start as int, i as int),
    {
        t.push(chars[i]);
        assert(t@ =~= chars@.subrange(start as int, i + 1));
    }
    t
}

/// Whether a character occurs in a text.
pub fn has_char(s: &str, c: char) -> (b: bool)
    ensures
        b == s@.contains(c),
{
    let v = chars_of(s);
    for i in 0..v.len()
        invariant
            v@ == s@,
            forall|j: int| 0 <= j < i ==> v@[j] != c,
    {
        if v[i] == c {
            assert(s@[i as int] == c);
            return true;
        }
    }
    false
}

/// Writes a qualified name as a path.
pub fn slashed_text(s: &str) -> (t: String)
    ensures
        t@ == slashed(s@),
{
    let v = chars_of(s);
    let mut t = String::new();
    let mut i: usize = 0;
    assert(v@.skip(0) =~= s@);
    while i < v.len()
        invariant
            i <= v@.len(),
            slashed(s@) == t@ + slashed(v@.skip(i as int)),
        decreases v@.len() - i,
    {
        let ghost rest = v@.skip(i as int);
        let ghost before = t@;
        if i + 1 < v.len() && v[i] == ':' && v[i + 1] == ':' {
            t.push('/');
            assert(rest.skip(2) =~= v@.skip(i + 2));
            assert(before + (seq!['/'] + slashed(v@.skip(i + 2))) =~= t@ + slashed(v@.skip(i + 2)));
            i += 2;
        } else {
            t.push(v[i]);
            assert(rest.skip(1) =~= v@.skip(i + 1));
            assert(before + (seq![rest[0]] + slashed(v@.skip(i + 1))) =~= t@ + slashed(
                v@.skip(i + 1),
            ));
            i += 1;
        }
    }
    assert(v@.skip(i as int) =~= Seq::<char>::empty());
    assert(t@ + Seq::<char>::empty() =~= t@);
    t
}

/// Takes the slashes off the end of a text.
pub fn trimmed_text(s: &str) -> (t: String)
    ensures
        t@ == trimmed(s@),
{
    let v = chars_of(s);
    let mut n: usize = v.len();
    assert(v@.take(n as int) =~= s@);
    while n > 0 && v[n - 1] == '/'
        invariant
            n <= v@.len(),
            v@ == s@,
            trimmed(s@) == trimmed(v@.take(n as int)),
        decreases n,
    {
        assert(v@.take(n as int).drop_last() =~= v@.take(n - 1));
        n -= 1;
    }
    let kept = s.substring_char(0, n);
    assert(kept@ =~= v@.take(n as int));
    copied(kept)
}

} // verus!
