//! The link set: paths without duplicates, in ascending order.
//!
//! Two paths are the same link exactly when they are the same text; `/a` and
//! `/a/` are two links. The order is the lexicographic order of the bytes of
//! the paths in UTF-8, the order in which strings compare.

use vstd::prelude::*;
use vstd::string::StringSliceAdditionalSpecFns;
use vstd::utf8::{encode_utf8, encode_utf8_decode_utf8};

verus! {

/// Whether the bytes `a` come before the bytes `b`: at the first index where
/// they differ `a` has the smaller byte, or `a` ends there and `b` goes on.
pub open spec fn bytes_less(a: Seq<u8>, b: Seq<u8>) -> bool
    decreases a.len(),
{
    if b.len() == 0 {
        false
    } else if a.len() == 0 {
        true
    } else if a[0] != b[0] {
        a[0] < b[0]
    } else {
        bytes_less(a.drop_first(), b.drop_first())
    }
}

/// Whether the text `a` comes before the text `b`: whether its bytes in
/// UTF-8 come before those of `b`.
pub open spec fn lex_less(a: Seq<char>, b: Seq<char>) -> bool {
    bytes_less(encode_utf8(a), encode_utf8(b))
}

/// No bytes come before themselves.
pub proof fn lemma_bytes_irreflexive(a: Seq<u8>)
    ensures
        !bytes_less(a, a),
    decreases a.len(),
{
    if a.len() > 0 {
        lemma_bytes_irreflexive(a.drop_first());
    }
}

/// Of two different byte sequences one comes before the other.
pub proof fn lemma_bytes_total(a: Seq<u8>, b: Seq<u8>)
    ensures
        a == b || bytes_less(a, b) || bytes_less(b, a),
    decreases a.len(),
{
    if a.len() > 0 && b.len() > 0 && a[0] == b[0] {
        lemma_bytes_total(a.drop_first(), b.drop_first());
        if a.drop_first() == b.drop_first() {
            assert(a =~= seq![a[0]] + a.drop_first());
            assert(b =~= seq![b[0]] + b.drop_first());
        }
    } else if a.len() == 0 && b.len() == 0 {
        assert(a =~= b);
    }
}

/// The order of bytes is transitive.
pub proof fn lemma_bytes_transitive(a: Seq<u8>, b: Seq<u8>, c: Seq<u8>)
    requires
        bytes_less(a, b),
        bytes_less(b, c),
    ensures
        bytes_less(a, c),
    decreases a.len(),
{
    if a.len() > 0 && a[0] == b[0] && b[0] == c[0] {
        lemma_bytes_transitive(a.drop_first(), b.drop_first(), c.drop_first());
    }
}

/// No text comes before itself.
pub proof fn lemma_lex_irreflexive(a: Seq<char>)
    ensures
        !lex_less(a, a),
{
    lemma_bytes_irreflexive(encode_utf8(a));
}

/// Of two different texts one comes before the other.
pub proof fn lemma_lex_total(a: Seq<char>, b: Seq<char>)
    ensures
        a == b || lex_less(a, b) || lex_less(b, a),
{
    lemma_bytes_total(encode_utf8(a), encode_utf8(b));
    if encode_utf8(a) == encode_utf8(b) {
        encode_utf8_decode_utf8(a);
        encode_utf8_decode_utf8(b);
    }
}

/// The order is transitive.
pub proof fn lemma_lex_transitive(a: Seq<char>, b: Seq<char>, c: Seq<char>)
    requires
        lex_less(a, b),
        lex_less(b, c),
    ensures
        lex_less(a, c),
{
    lemma_bytes_transitive(encode_utf8(a), encode_utf8(b), encode_utf8(c));
}

/// Of two texts at most one comes before the other.
pub proof fn lemma_lex_asymmetric(a: Seq<char>, b: Seq<char>)
    requires
        lex_less(a, b),
    ensures
        !lex_less(b, a),
{
    if lex_less(b, a) {
        lemma_lex_transitive(a, b, a);
        lemma_lex_irreflexive(a);
    }
}

/// Whether each text of `s` comes before all that follow it. Such a
/// sequence holds no text twice.
pub open spec fn is_strictly_ascending(s: Seq<Seq<char>>) -> bool {
    forall|i: int, j: int| 0 <= i < j < s.len() ==> lex_less(#[trigger] s[i], #[trigger] s[j])
}

/// Whether `out` is the collection of `links`: it holds the texts of
/// `links` and no other, each once, in ascending order.
pub open spec fn is_collection_of(out: Seq<Seq<char>>, links: Seq<Seq<char>>) -> bool {
    &&& is_strictly_ascending(out)
    &&& forall|x: Seq<char>| out.contains(x) <==> links.contains(x)
}

/// A strictly ascending sequence is fixed by what it holds: two of them
/// with the same members are equal.
pub proof fn lemma_ascending_unique(s: Seq<Seq<char>>, t: Seq<Seq<char>>)
    requires
        is_strictly_ascending(s),
        is_strictly_ascending(t),
        forall|x: Seq<char>| s.contains(x) <==> t.contains(x),
    ensures
        s == t,
    decreases s.len(),
{
    if s.len() == 0 {
        if t.len() > 0 {
            assert(t.contains(t[0]));
        }
        assert(s =~= t);
    } else if t.len() == 0 {
        assert(s.contains(s[0]));
    } else {
        // the least member stands first in both
        assert(s.contains(s[0]));
        assert(t.contains(t[0]));
        let i = choose|i: int| 0 <= i < t.len() && t[i] == s[0];
        let j = choose|j: int| 0 <= j < s.len() && s[j] == t[0];
        if i > 0 {
            assert(lex_less(t[0], t[i]));
            if j > 0 {
                assert(lex_less(s[0], s[j]));
                lemma_lex_asymmetric(t[0], s[0]);
            } else {
                lemma_lex_irreflexive(s[0]);
            }
        }
        assert(s[0] == t[0]);
        let s1 = s.drop_first();
        let t1 = t.drop_first();
        assert forall|x: Seq<char>| s1.contains(x) <==> t1.contains(x) by {
            if s1.contains(x) {
                let k = choose|k: int| 0 <= k < s1.len() && s1[k] == x;
                assert(s[k + 1] == x);
                assert(lex_less(s[0], s[k + 1]));
                assert(s.contains(x));
                let m = choose|m: int| 0 <= m < t.len() && t[m] == x;
                if m == 0 {
                    lemma_lex_irreflexive(x);
                }
                assert(t1[m - 1] == x);
            }
            if t1.contains(x) {
                let k = choose|k: int| 0 <= k < t1.len() && t1[k] == x;
                assert(t[k + 1] == x);
                assert(lex_less(t[0], t[k + 1]));
                assert(t.contains(x));
                let m = choose|m: int| 0 <= m < s.len() && s[m] == x;
                if m == 0 {
                    lemma_lex_irreflexive(x);
                }
                assert(s1[m - 1] == x);
            }
        }
        assert forall|a: int, b: int| 0 <= a < b < s1.len() implies lex_less(
            #[trigger] s1[a],
            #[trigger] s1[b],
        ) by {
            assert(lex_less(s[a + 1], s[b + 1]));
        }
        assert forall|a: int, b: int| 0 <= a < b < t1.len() implies lex_less(
            #[trigger] t1[a],
            #[trigger] t1[b],
        ) by {
            assert(lex_less(t[a + 1], t[b + 1]));
        }
        lemma_ascending_unique(s1, t1);
        assert(s =~= seq![s[0]] + s1);
        assert(t =~= seq![t[0]] + t1);
    }
}

/// There is one collection of `links` and no other.
pub proof fn lemma_collection_unique(
    links: Seq<Seq<char>>,
    first: Seq<Seq<char>>,
    second: Seq<Seq<char>>,
)
    requires
        is_collection_of(first, links),
        is_collection_of(second, links),
    ensures
        first == second,
{
    lemma_ascending_unique(first, second);
}

/// Collecting is idempotent under duplicates: a text that is put in once
/// more, wherever it stands, changes nothing in the collection.
pub proof fn lemma_duplicate_changes_nothing(
    links: Seq<Seq<char>>,
    at: int,
    again: Seq<char>,
    out: Seq<Seq<char>>,
    out_again: Seq<Seq<char>>,
)
    requires
        links.contains(again),
        0 <= at <= links.len(),
        is_collection_of(out, links),
        is_collection_of(out_again, links.insert(at, again)),
    ensures
        out_again == out,
{
    let more = links.insert(at, again);
    assert forall|x: Seq<char>| more.contains(x) <==> links.contains(x) by {
        if more.contains(x) {
            let k = choose|k: int| 0 <= k < more.len() && more[k] == x;
            if k < at {
                assert(links[k] == x);
            } else if k > at {
                assert(links[k - 1] == x);
            }
        }
        if links.contains(x) {
            let k = choose|k: int| 0 <= k < links.len() && links[k] == x;
            if k < at {
                assert(more[k] == x);
            } else {
                assert(more[k + 1] == x);
            }
        }
    }
    lemma_ascending_unique(out_again, out);
}

/// A collection holds no text twice.
pub proof fn lemma_collection_distinct(out: Seq<Seq<char>>, i: int, j: int)
    requires
        is_strictly_ascending(out),
        0 <= i < out.len(),
        0 <= j < out.len(),
        out[i] == out[j],
    ensures
        i == j,
{
    lemma_lex_irreflexive(out[i]);
    if i < j {
        assert(lex_less(out[i], out[j]));
    } else if j < i {
        assert(lex_less(out[j], out[i]));
    }
}

/// Decides `lex_less`.
pub fn less(a: &str, b: &str) -> (before: bool)
    ensures
        before == lex_less(a@, b@),
{
    let x = a.as_bytes();
    let y = b.as_bytes();
    let mut i: usize = 0;
    assert(x@.skip(0) =~= x@ && y@.skip(0) =~= y@);
    while i < x.len() && i < y.len() && x[i] == y[i]
        invariant
            i <= x.len(),
            i <= y.len(),
            x@ == encode_utf8(a@),
            y@ == encode_utf8(b@),
            lex_less(a@, b@) == bytes_less(x@.skip(i as int), y@.skip(i as int)),
        decreases x.len() - i,
    {
        assert(x@.skip(i as int).drop_first() =~= x@.skip(i + 1));
        assert(y@.skip(i as int).drop_first() =~= y@.skip(i + 1));
        i += 1;
    }
    if i >= y.len() {
        false
    } else if i >= x.len() {
        true
    } else {
        x[i] < y[i]
    }
}

/// A set of link paths, kept in ascending order.
pub struct LinkSet {
    paths: Vec<String>,
}

impl View for LinkSet {
    type V = Seq<Seq<char>>;

    /// The paths of the set, in ascending order.
    closed spec fn view(&self) -> Seq<Seq<char>> {
        Seq::new(self.paths@.len(), |i: int| self.paths@[i]@)
    }
}

impl LinkSet {
    #[verifier::type_invariant]
    spec fn ascending(self) -> bool {
        is_strictly_ascending(self@)
    }

    /// The set without members.
    pub fn new() -> (set: LinkSet)
        ensures
            set@ == Seq::<Seq<char>>::empty(),
    {
        let set = LinkSet { paths: Vec::new() };
        assert(set@ =~= Seq::<Seq<char>>::empty());
        set
    }

    /// How many paths the set holds.
    pub fn len(&self) -> (n: usize)
        ensures
            n == self@.len(),
    {
        self.paths.len()
    }

    /// Whether the set holds no path.
    pub fn is_empty(&self) -> (empty: bool)
        ensures
            empty == (self@.len() == 0),
    {
        self.paths.len() == 0
    }

    /// Puts `path` into the set.
    ///
    /// The set then holds `path` and what it held before, in ascending
    /// order. Where it held `path` already, it is unchanged.
    pub fn insert(&mut self, path: &str)
        ensures
            is_strictly_ascending(final(self)@),
            forall|x: Seq<char>| final(self)@.contains(x) <==> (old(self)@.contains(x) || x == path@),
            old(self)@.contains(path@) ==> final(self)@ == old(self)@,
            !old(self)@.contains(path@) ==> final(self)@.len() == old(self)@.len() + 1,
    {
        proof {
            use_type_invariant(&*self);
        }
        let key = path.to_owned();
        let ghost before = self@;
        let mut at: usize = 0;
        while at < self.paths.len() && less(self.paths[at].as_str(), path)
            invariant
                at <= self.paths.len(),
                self@ == before,
                key@ == path@,
                is_strictly_ascending(before),
                forall|j: int| 0 <= j < at ==> lex_less(#[trigger] before[j], key@),
            decreases self.paths.len() - at,
        {
            assert(before[at as int] == self.paths@[at as int]@);
            at += 1;
        }
        if at < self.paths.len() && !less(path, self.paths[at].as_str()) {
            // neither comes before the other: the path is held already
            assert(before[at as int] == self.paths@[at as int]@);
            proof {
                lemma_lex_total(before[at as int], key@);
            }
            assert(before.contains(key@));
            return ;
        }
        proof {
            // `key` comes before every path from `at` on, and is none of them
            if at < before.len() {
                assert(before[at as int] == self.paths@[at as int]@);
            }
            assert forall|j: int| at <= j < before.len() implies lex_less(
                key@,
                #[trigger] before[j],
            ) by {
                if j > at {
                    assert(lex_less(before[at as int], before[j]));
                    lemma_lex_transitive(key@, before[at as int], before[j]);
                }
            }
            assert forall|j: int| 0 <= j < before.len() implies #[trigger] before[j] != key@ by {
                lemma_lex_irreflexive(key@);
            }
        }
        let mut held = LinkSet::new();
        core::mem::swap(self, &mut held);
        let mut paths = held.paths;
        paths.insert(at, key);
        proof {
            let after = Seq::new(paths@.len(), |i: int| paths@[i]@);
            assert(after =~= before.insert(at as int, key@));
            assert forall|i: int, j: int| 0 <= i < j < after.len() implies lex_less(
                #[trigger] after[i],
                #[trigger] after[j],
            ) by {
                let bi = if i < at { i } else { i - 1 };
                let bj = if j < at { j } else { j - 1 };
                if i != at && j != at {
                    assert(lex_less(before[bi], before[bj]));
                }
            }
            assert forall|x: Seq<char>| after.contains(x) <==> (before.contains(x) || x == key@) by {
                if after.contains(x) {
                    let k = choose|k: int| 0 <= k < after.len() && after[k] == x;
                    if k < at {
                        assert(before[k] == x);
                    } else if k > at {
                        assert(before[k - 1] == x);
                    }
                }
                if before.contains(x) {
                    let k = choose|k: int| 0 <= k < before.len() && before[k] == x;
                    if k < at {
                        assert(after[k] == x);
                    } else {
                        assert(after[k + 1] == x);
                    }
                }
                if x == key@ {
                    assert(after[at as int] == x);
                }
            }
            assert(!before.contains(key@));
        }
        *self = LinkSet { paths };
    }

    /// The paths of the set as strings, in ascending order.
    pub fn to_vec(&self) -> (out: Vec<String>)
        ensures
            out.deep_view() == self@,
            is_strictly_ascending(self@),
    {
        proof {
            use_type_invariant(self);
        }
        let mut out: Vec<String> = Vec::new();
        let mut i: usize = 0;
        while i < self.paths.len()
            invariant
                i <= self.paths.len(),
                out.len() == i,
                forall|j: int| 0 <= j < i ==> out@[j]@ == self.paths@[j]@,
            decreases self.paths.len() - i,
        {
            out.push(self.paths[i].clone());
            i += 1;
        }
        assert(out.deep_view() =~= self@);
        out
    }
}

/// The set that holds the texts of `links`, as an ascending sequence
/// without duplicates.
pub fn collect(links: &Vec<String>) -> (out: Vec<String>)
    ensures
        is_collection_of(out.deep_view(), links.deep_view()),
{
    let set = set_of(links);
    set.to_vec()
}

/// The set that holds the texts of `links`.
pub fn set_of(links: &Vec<String>) -> (set: LinkSet)
    ensures
        is_collection_of(set@, links.deep_view()),
{
    let mut set = LinkSet::new();
    let ghost all = links.deep_view();
    let mut i: usize = 0;
    while i < links.len()
        invariant
            i <= links.len(),
            all == links.deep_view(),
            is_strictly_ascending(set@),
            forall|x: Seq<char>| set@.contains(x) <==> all.take(i as int).contains(x),
        decreases links.len() - i,
    {
        let ghost held = set@;
        set.insert(links[i].as_str());
        proof {
            let prev = all.take(i as int);
            let now = all.take(i + 1);
            assert(all[i as int] == links@[i as int]@);
            assert forall|x: Seq<char>| set@.contains(x) <==> now.contains(x) by {
                if now.contains(x) {
                    let k = choose|k: int| 0 <= k < now.len() && now[k] == x;
                    if k < i {
                        assert(prev[k] == x);
                    }
                }
                if held.contains(x) {
                    let k = choose|k: int| 0 <= k < prev.len() && prev[k] == x;
                    assert(now[k] == x);
                }
                if x == all[i as int] {
                    assert(now[i as int] == x);
                }
            }
        }
        i += 1;
    }
    assert(all.take(links.len() as int) =~= all);
    set
}

} // verus!
