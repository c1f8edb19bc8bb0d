//! Text as sequences of characters.
//!
//! Every contract of this library speaks of a string through its view, a
//! `Seq<char>`. The executable code works on character vectors, which can be
//! indexed in constant time; this module converts between the two and holds
//! the small searches on character sequences that the other modules share.

use vstd::prelude::*;

verus! {

/// `String::push` appends one character to the end of the string.
pub assume_specification[ String::push ](s: &mut String, c: char)
    ensures
        final(s)@ == old(s)@.push(c),
;

/// The characters of `s`, in order.
pub fn chars_of(s: &str) -> (out: Vec<char>)
    ensures
        out@ == s@,
{
    let mut out: Vec<char> = Vec::new();
    for c in it: s.chars()
        invariant
            out@ == it.seq().take(it.index() as int),
    {
        out.push(c);
    }
    out
}

/// Appends the characters `chars[from..to]` to `out`.
pub fn append_range(out: &mut String, chars: &Vec<char>, from: usize, to: usize)
    requires
        from <= to <= chars.len(),
    ensures
        final(out)@ == old(out)@ + chars@.subrange(from as int, to as int),
{
    let ghost start = out@;
    let mut i: usize = from;
    assert(start + chars@.subrange(from as int, from as int) =~= start);
    while i < to
        invariant
            from <= i <= to <= chars.len(),
            out@ == start + chars@.subrange(from as int, i as int),
        decreases to - i,
    {
        out.push(chars[i]);
        assert(start + chars@.subrange(from as int, i + 1) =~= (start + chars@.subrange(
            from as int,
            i as int,
        )).push(chars@[i as int]));
        i += 1;
    }
}

/// The string made of the characters `chars[from..to]`.
pub fn string_of_range(chars: &Vec<char>, from: usize, to: usize) -> (out: String)
    requires
        from <= to <= chars.len(),
    ensures
        out@ == chars@.subrange(from as int, to as int),
{
    let mut out = String::new();
    append_range(&mut out, chars, from, to);
    assert(Seq::<char>::empty() + chars@.subrange(from as int, to as int) =~= chars@.subrange(
        from as int,
        to as int,
    ));
    out
}

/// The string made of the characters of `chars`.
pub fn string_of(chars: &Vec<char>) -> (out: String)
    ensures
        out@ == chars@,
{
    let out = string_of_range(chars, 0, chars.len());
    assert(chars@.subrange(0, chars@.len() as int) =~= chars@);
    out
}

/// Whether `pat` stands in `s` at index `at`.
pub open spec fn occurs_at(s: Seq<char>, at: int, pat: Seq<char>) -> bool {
    &&& 0 <= at
    &&& at + pat.len() <= s.len()
    &&& s.subrange(at, at + pat.len()) == pat
}

/// Decides `occurs_at`.
pub fn has_at(s: &Vec<char>, at: usize, pat: &Vec<char>) -> (found: bool)
    ensures
        found == occurs_at(s@, at as int, pat@),
{
    if at > s.len() || pat.len() > s.len() - at {
        return false;
    }
    let mut k: usize = 0;
    while k < pat.len()
        invariant
            at + pat.len() <= s.len(),
            k <= pat.len(),
            forall|j: int| 0 <= j < k ==> s@[at + j] == pat@[j],
        decreases pat.len() - k,
    {
        if s[at + k] != pat[k] {
            assert(s@.subrange(at as int, at + pat.len())[k as int] != pat@[k as int]);
            return false;
        }
        k += 1;
    }
    assert(s@.subrange(at as int, at + pat.len()) =~= pat@);
    true
}

/// Whether `s` ends in `/`.
pub open spec fn ends_with_slash(s: Seq<char>) -> bool {
    s.len() > 0 && s.last() == '/'
}

/// Whether `s` begins with `/`.
pub open spec fn starts_with_slash(s: Seq<char>) -> bool {
    s.len() > 0 && s[0] == '/'
}

/// Whether `c` occurs in `s`.
pub open spec fn has_char(s: Seq<char>, c: char) -> bool {
    exists|i: int| 0 <= i < s.len() && s[i] == c
}

/// The index just behind the last `c` of `s`, or 0 where `s` holds none:
/// the start of the last piece into which `c` splits `s`.
pub open spec fn last_piece_start(s: Seq<char>, c: char) -> int
    decreases s.len(),
{
    if s.len() == 0 {
        0
    } else if s.last() == c {
        s.len() as int
    } else {
        last_piece_start(s.drop_last(), c)
    }
}

/// `last_piece_start` lies in `s`, follows a `c` unless it is 0, and no `c`
/// comes after it.
pub proof fn lemma_last_piece_start(s: Seq<char>, c: char)
    ensures
        0 <= last_piece_start(s, c) <= s.len(),
        last_piece_start(s, c) > 0 ==> s[last_piece_start(s, c) - 1] == c,
        forall|j: int| last_piece_start(s, c) <= j < s.len() ==> s[j] != c,
    decreases s.len(),
{
    if s.len() > 0 && s.last() != c {
        let front = s.drop_last();
        lemma_last_piece_start(front, c);
        assert forall|j: int| last_piece_start(s, c) <= j < s.len() implies s[j] != c by {
            if j < front.len() {
                assert(front[j] == s[j]);
            }
        }
    }
}

/// The text behind the last `c` of `s`; all of `s` where it holds no `c`.
pub open spec fn last_piece(s: Seq<char>, c: char) -> Seq<char> {
    s.subrange(last_piece_start(s, c), s.len() as int)
}

/// Computes `last_piece_start` on `s[from..]`, as an index into `s`.
pub fn find_last_piece_from(s: &Vec<char>, from: usize, c: char) -> (start: usize)
    requires
        from <= s.len(),
    ensures
        from <= start <= s.len(),
        start - from == last_piece_start(s@.subrange(from as int, s.len() as int), c),
        s@.subrange(start as int, s.len() as int) == last_piece(
            s@.subrange(from as int, s.len() as int),
            c,
        ),
{
    let ghost tail = s@.subrange(from as int, s.len() as int);
    let mut i: usize = s.len();
    assert(tail.subrange(0, tail.len() as int) =~= tail);
    while i > from && s[i - 1] != c
        invariant
            from <= i <= s.len(),
            tail == s@.subrange(from as int, s.len() as int),
            last_piece_start(tail, c) == last_piece_start(tail.subrange(0, i - from), c),
        decreases i,
    {
        assert(tail.subrange(0, i - from).last() == s@[i - 1]);
        assert(tail.subrange(0, i - from).drop_last() =~= tail.subrange(0, i - 1 - from));
        i -= 1;
    }
    proof {
        if i > from {
            assert(tail.subrange(0, i - from).last() == s@[i - 1]);
        }
        assert(s@.subrange(i as int, s.len() as int) =~= last_piece(tail, c));
    }
    i
}

/// Computes `last_piece_start`.
pub fn find_last_piece(s: &Vec<char>, c: char) -> (start: usize)
    ensures
        start == last_piece_start(s@, c),
        start <= s.len(),
{
    assert(s@.subrange(0, s.len() as int) =~= s@);
    find_last_piece_from(s, 0, c)
}

/// Decides whether `c` occurs in `s[from..to]`.
pub fn range_has_char(s: &Vec<char>, from: usize, to: usize, c: char) -> (found: bool)
    requires
        from <= to <= s.len(),
    ensures
        found == has_char(s@.subrange(from as int, to as int), c),
{
    let ghost piece = s@.subrange(from as int, to as int);
    let mut i: usize = from;
    while i < to
        invariant
            from <= i <= to <= s.len(),
            piece == s@.subrange(from as int, to as int),
            forall|j: int| 0 <= j < i - from ==> piece[j] != c,
        decreases to - i,
    {
        if s[i] == c {
            assert(piece[i - from] == c);
            return true;
        }
        i += 1;
    }
    false
}

} // verus!
