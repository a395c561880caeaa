//! The leaderboard: how many edits each domain has received, and how the domains rank.

use crate::order::{in_order, sorted, Ordered};
use vstd::hash_map::StringHashMap;
use vstd::prelude::*;
use vstd::utf8::encode_utf8;

verus! {

/// The edits of a domain, which are none for a domain that the board does not hold.
pub open spec fn edits_of(board: Map<Seq<char>, u64>, domain: Seq<char>) -> u64 {
    if board.contains_key(domain) {
        board[domain]
    } else {
        0
    }
}

/// The board after one more edit of a domain.
pub open spec fn bumped(board: Map<Seq<char>, u64>, domain: Seq<char>) -> Map<Seq<char>, u64> {
    board.insert(domain, (edits_of(board, domain) + 1) as u64)
}

/// Whether `a` comes before `b` in the lexicographic order of byte strings.
pub open spec fn bytes_before(a: Seq<u8>, b: Seq<u8>) -> bool
    decreases a.len(),
{
    if b.len() == 0 {
        false
    } else if a.len() == 0 {
        true
    } else if a[0] != b[0] {
        a[0] < b[0]
    } else {
        bytes_before(a.drop_first(), b.drop_first())
    }
}

/// Whether a domain with its edits stands above another: by more edits, and with equally many
/// by the name whose bytes come first.
pub open spec fn outranks(a: (Seq<char>, u64), b: (Seq<char>, u64)) -> bool {
    a.1 > b.1 || (a.1 == b.1 && bytes_before(encode_utf8(a.0), encode_utf8(b.0)))
}

/// Whether `r` lists every domain of the board with its edits, each above the next.
pub open spec fn is_ranking(board: Map<Seq<char>, u64>, r: Seq<(Seq<char>, u64)>) -> bool {
    &&& forall|i: int, j: int| 0 <= i < j < r.len() ==> outranks(#[trigger] r[i], #[trigger] r[j])
    &&& forall|i: int|
        0 <= i < r.len() ==> board.contains_pair((#[trigger] r[i]).0, r[i].1)
    &&& forall|d: Seq<char>| #[trigger]
        board.contains_key(d) ==> exists|i: int| 0 <= i < r.len() && (#[trigger] r[i]).0 == d
}

/// The domains of a board with their edits, from the top down.
pub open spec fn ranking(board: Map<Seq<char>, u64>) -> Seq<(Seq<char>, u64)> {
    choose|r: Seq<(Seq<char>, u64)>| is_ranking(board, r)
}

/// A domain and its edits.
#[derive(Clone, Copy, Debug)]
pub struct Standing<'a> {
    pub domain: &'a str,
    pub edits: u64,
}

impl<'a> View for Standing<'a> {
    type V = (Seq<char>, u64);

    open spec fn view(&self) -> (Seq<char>, u64) {
        (self.domain@, self.edits)
    }
}

/// The domains and edits that a list of standings shows.
pub open spec fn standings(list: Seq<Standing<'_>>) -> Seq<(Seq<char>, u64)> {
    list.map_values(|s: Standing<'_>| s@)
}

proof fn lemma_bytes_before_total(a: Seq<u8>, b: Seq<u8>)
    ensures
        bytes_before(a, b) || bytes_before(b, a) || a == b,
        !(bytes_before(a, b) && bytes_before(b, a)),
        a == b ==> !bytes_before(a, b),
    decreases a.len(),
{
    if a.len() > 0 && b.len() > 0 && a[0] == b[0] {
        lemma_bytes_before_total(a.drop_first(), b.drop_first());
        if a.drop_first() == b.drop_first() {
            assert(a =~= seq![a[0]] + a.drop_first());
            assert(b =~= seq![b[0]] + b.drop_first());
        }
    } else if a.len() == 0 && b.len() == 0 {
        assert(a =~= b);
    }
}

proof fn lemma_bytes_before_transitive(a: Seq<u8>, b: Seq<u8>, c: Seq<u8>)
    requires
        bytes_before(a, b),
        bytes_before(b, c),
    ensures
        bytes_before(a, c),
    decreases a.len(),
{
    if a.len() > 0 && b.len() > 0 && c.len() > 0 && a[0] == b[0] && b[0] == c[0] {
        lemma_bytes_before_transitive(a.drop_first(), b.drop_first(), c.drop_first());
    }
}

proof fn lemma_bytes_before_skip(a: Seq<u8>, b: Seq<u8>, k: int)
    requires
        0 <= k <= a.len(),
        0 <= k <= b.len(),
        forall|i: int| 0 <= i < k ==> a[i] == b[i],
    ensures
        bytes_before(a, b) == bytes_before(a.skip(k), b.skip(k)),
    decreases k,
{
    if k == 0 {
        assert(a.skip(0) =~= a);
        assert(b.skip(0) =~= b);
    } else {
        lemma_bytes_before_skip(a.drop_first(), b.drop_first(), k - 1);
        assert(a.drop_first().skip(k - 1) =~= a.skip(k));
        assert(b.drop_first().skip(k - 1) =~= b.skip(k));
    }
}

proof fn lemma_encoding_injective(a: Seq<char>, b: Seq<char>)
    requires
        encode_utf8(a) == encode_utf8(b),
    ensures
        a == b,
{
    vstd::utf8::encode_utf8_decode_utf8(a);
    vstd::utf8::encode_utf8_decode_utf8(b);
}

/// Of two different standings exactly one outranks the other, and none outranks itself.
pub proof fn law_outranks_total(a: (Seq<char>, u64), b: (Seq<char>, u64))
    ensures
        a != b ==> (outranks(a, b) <==> !outranks(b, a)),
        a == b ==> !outranks(a, b),
{
    lemma_bytes_before_total(encode_utf8(a.0), encode_utf8(b.0));
    if encode_utf8(a.0) == encode_utf8(b.0) {
        lemma_encoding_injective(a.0, b.0);
    }
}

/// What stands above `b` stands above everything below `b`.
pub proof fn law_outranks_transitive(
    a: (Seq<char>, u64),
    b: (Seq<char>, u64),
    c: (Seq<char>, u64),
)
    requires
        outranks(a, b),
        outranks(b, c),
    ensures
        outranks(a, c),
{
    if a.1 == b.1 && b.1 == c.1 {
        lemma_bytes_before_transitive(encode_utf8(a.0), encode_utf8(b.0), encode_utf8(c.0));
    }
}

/// Compares two names by their bytes.
fn is_before(a: &str, b: &str) -> (r: bool)
    ensures
        r == bytes_before(encode_utf8(a@), encode_utf8(b@)),
{
    let x = a.as_bytes();
    let y = b.as_bytes();
    let mut k: usize = 0;
    while k < x.len() && k < y.len() && x[k] == y[k]
        invariant
            k <= x.len(),
            k <= y.len(),
            forall|i: int| 0 <= i < k ==> x@[i] == y@[i],
        decreases x.len() - k,
    {
        k += 1;
    }
    proof {
        lemma_bytes_before_skip(x@, y@, k as int);
    }
    if k == y.len() {
        false
    } else if k == x.len() {
        true
    } else {
        x[k] < y[k]
    }
}

impl<'a> Ordered for Standing<'a> {
    open spec fn at_most(self, other: Self) -> bool {
        self@ == other@ || outranks(self@, other@)
    }

    proof fn lemma_total(a: Self, b: Self) {
        law_outranks_total(a@, b@);
    }

    proof fn lemma_transitive(a: Self, b: Self, c: Self) {
        if outranks(a@, b@) && outranks(b@, c@) {
            law_outranks_transitive(a@, b@, c@);
        }
    }

    fn is_at_most(self, other: Self) -> (r: bool) {
        proof {
            law_outranks_total(self@, other@);
        }
        if self.edits != other.edits {
            self.edits > other.edits
        } else {
            !is_before(other.domain, self.domain)
        }
    }
}

/// The edits that each domain has received. Its view maps the domains to their edits.
pub struct Leaderboard {
    counts: StringHashMap<u64>,
    domains: Vec<String>,
}

impl View for Leaderboard {
    type V = Map<Seq<char>, u64>;

    closed spec fn view(&self) -> Map<Seq<char>, u64> {
        self.counts@
    }
}

impl Leaderboard {
    /// The list of domains names each counted domain once.
    pub closed spec fn wf(&self) -> bool {
        &&& forall|i: int, j: int|
            0 <= i < j < self.domains.len() ==> self.domains@[i]@ != self.domains@[j]@
        &&& forall|i: int|
            0 <= i < self.domains.len() ==> self.counts@.contains_key(
                (#[trigger] self.domains@[i])@,
            )
        &&& forall|d: Seq<char>| #[trigger]
            self.counts@.contains_key(d) ==> exists|i: int|
                0 <= i < self.domains.len() && (#[trigger] self.domains@[i])@ == d
    }

    /// A board holds finitely many domains.
    pub proof fn lemma_finite(&self)
        requires
            self.wf(),
        ensures
            self@.dom().finite(),
    {
        let names = self.domains@.map_values(|s: String| s@);
        assert(self@.dom() =~= names.to_set()) by {
            assert forall|d: Seq<char>| self@.dom().contains(d) implies names.contains(d) by {
                let i = choose|i: int|
                    0 <= i < self.domains.len() && (#[trigger] self.domains@[i])@ == d;
                assert(names[i] == d);
            }
            assert forall|d: Seq<char>| names.contains(d) implies self@.dom().contains(d) by {
                let i = choose|i: int| 0 <= i < names.len() && names[i] == d;
                assert(self.domains@[i]@ == d);
            }
        }
        vstd::seq_lib::seq_to_set_is_finite(names);
    }

    /// A board without domains.
    pub fn new() -> (board: Leaderboard)
        ensures
            board.wf(),
            board@ == Map::<Seq<char>, u64>::empty(),
    {
        Leaderboard { counts: StringHashMap::new(), domains: Vec::new() }
    }

    /// The edits of a domain.
    pub fn edits(&self, domain: &str) -> (n: u64)
        ensures
            n == edits_of(self@, domain@),
    {
        match self.counts.get(domain) {
            Some(n) => *n,
            None => 0,
        }
    }

    /// Lists the domains with their edits, from the top down.
    pub fn ranked(&self) -> (list: Vec<Standing<'_>>)
        requires
            self.wf(),
        ensures
            is_ranking(self@, standings(list@)),
            standings(list@) == ranking(self@),
    {
        let mut all: Vec<Standing<'_>> = Vec::new();
        let mut i: usize = 0;
        while i < self.domains.len()
            invariant
                self.wf(),
                i <= self.domains.len(),
                all.len() == i,
                forall|k: int|
                    0 <= k < i ==> (#[trigger] all@[k])@ == (
                        self.domains@[k]@,
                        self@[self.domains@[k]@],
                    ),
            decreases self.domains.len() - i,
        {
            let domain = self.domains[i].as_str();
            all.push(Standing { domain, edits: self.edits(domain) });
            i += 1;
        }
        let list = sorted(all.as_slice());
        proof {
            assert forall|d: Seq<char>| #[trigger] self@.contains_key(d) implies exists|k: int|
                0 <= k < all@.len() && (#[trigger] all@[k])@.0 == d by {
                let k = choose|k: int|
                    0 <= k < self.domains.len() && (#[trigger] self.domains@[k])@ == d;
                assert(all@[k]@.0 == d);
            }
            assert forall|p: int, q: int| 0 <= p < q < all@.len() implies (#[trigger] all@[p])@
                != (#[trigger] all@[q])@ by {
                assert(self.domains@[p]@ != self.domains@[q]@);
            }
            lemma_sorted_is_ranking(self@, all@, list@);
            law_ranking_unique(self@, standings(list@), ranking(self@));
        }
        list
    }

    /// Whether the board holds no domain.
    pub fn is_empty(&self) -> (r: bool)
        ensures
            r == self@.is_empty(),
    {
        self.counts.is_empty()
    }
}

/// Counts one more edit of a domain.
pub fn update_leaderboard(leaderboard: &mut Leaderboard, domain: &str)
    requires
        old(leaderboard).wf(),
        edits_of(old(leaderboard)@, domain@) < u64::MAX,
    ensures
        final(leaderboard).wf(),
        final(leaderboard)@ == bumped(old(leaderboard)@, domain@),
{
    let known = leaderboard.counts.contains_key(domain);
    let edits = leaderboard.edits(domain);
    leaderboard.counts.insert(domain.to_owned(), edits + 1);
    if !known {
        let ghost before = leaderboard.domains@;
        leaderboard.domains.push(domain.to_owned());
        proof {
            assert forall|d: Seq<char>| #[trigger] leaderboard.counts@.contains_key(d) implies exists|
                i: int,
            |
                0 <= i < leaderboard.domains.len() && (#[trigger] leaderboard.domains@[i])@ == d by {
                if d == domain@ {
                    assert(leaderboard.domains@[before.len() as int]@ == d);
                } else {
                    assert(old(leaderboard).counts@.contains_key(d));
                    let i = choose|i: int|
                        0 <= i < before.len() && (#[trigger] before[i])@ == d;
                    assert(leaderboard.domains@[i]@ == d);
                }
            }
        }
    } else {
        proof {
            assert forall|d: Seq<char>| #[trigger] leaderboard.counts@.contains_key(d) implies exists|
                i: int,
            |
                0 <= i < leaderboard.domains.len() && (#[trigger] leaderboard.domains@[i])@ == d by {
                assert(old(leaderboard).counts@.contains_key(d));
                let i = choose|i: int|
                    0 <= i < old(leaderboard).domains.len() && (#[trigger] old(
                        leaderboard,
                    ).domains@[i])@ == d;
                assert(leaderboard.domains@[i]@ == d);
            }
        }
    }
}

proof fn lemma_sorted_is_ranking(
    board: Map<Seq<char>, u64>,
    all: Seq<Standing<'_>>,
    list: Seq<Standing<'_>>,
)
    requires
        forall|p: int, q: int|
            0 <= p < q < all.len() ==> (#[trigger] all[p])@ != (#[trigger] all[q])@,
        forall|k: int|
            0 <= k < all.len() ==> board.contains_pair((#[trigger] all[k])@.0, all[k]@.1),
        forall|d: Seq<char>| #[trigger]
            board.contains_key(d) ==> exists|k: int|
                0 <= k < all.len() && (#[trigger] all[k])@.0 == d,
        in_order(list),
        list.to_multiset() == all.to_multiset(),
    ensures
        is_ranking(board, standings(list)),
{
    let r = standings(list);
    all.to_multiset_ensures();
    list.to_multiset_ensures();
    assert(all.no_duplicates());
    all.lemma_multiset_has_no_duplicates();
    list.lemma_multiset_has_no_duplicates_conv();
    assert forall|i: int| 0 <= i < list.len() implies all.contains(#[trigger] list[i]) by {
        assert(list.contains(list[i]));
        assert(all.to_multiset().count(list[i]) > 0);
    }
    assert forall|i: int, j: int| 0 <= i < j < r.len() implies outranks(
        #[trigger] r[i],
        #[trigger] r[j],
    ) by {
        assert(list[i].at_most(list[j]));
        assert(all.contains(list[i]));
        assert(all.contains(list[j]));
        let p = choose|p: int| 0 <= p < all.len() && all[p] == list[i];
        let q = choose|q: int| 0 <= q < all.len() && all[q] == list[j];
        assert(list[i] != list[j]);
        assert(all[p]@ != all[q]@);
    }
    assert forall|i: int| 0 <= i < r.len() implies board.contains_pair(
        (#[trigger] r[i]).0,
        r[i].1,
    ) by {
        assert(all.contains(list[i]));
        let p = choose|p: int| 0 <= p < all.len() && all[p] == list[i];
        assert(board.contains_pair(all[p]@.0, all[p]@.1));
    }
    assert forall|d: Seq<char>| #[trigger] board.contains_key(d) implies exists|i: int|
        0 <= i < r.len() && (#[trigger] r[i]).0 == d by {
        let k = choose|k: int| 0 <= k < all.len() && (#[trigger] all[k])@.0 == d;
        assert(all.contains(all[k]));
        assert(list.to_multiset().count(all[k]) > 0);
        assert(list.contains(all[k]));
        let i = choose|i: int| 0 <= i < list.len() && list[i] == all[k];
        assert(r[i].0 == d);
    }
}

/// A board has one ranking at most.
pub proof fn law_ranking_unique(
    board: Map<Seq<char>, u64>,
    r: Seq<(Seq<char>, u64)>,
    s: Seq<(Seq<char>, u64)>,
)
    requires
        is_ranking(board, r),
        is_ranking(board, s),
    ensures
        r == s,
    decreases r.len(),
{
    if r.len() == 0 {
        if s.len() > 0 {
            assert(board.contains_pair(s[0].0, s[0].1));
            assert(board.contains_key(s[0].0));
        }
        assert(r =~= s);
    } else {
        assert(board.contains_pair(r[0].0, r[0].1));
        assert(board.contains_key(r[0].0));
        let j = choose|j: int| 0 <= j < s.len() && (#[trigger] s[j]).0 == r[0].0;
        assert(board.contains_pair(s[j].0, s[j].1));
        assert(s[j] == r[0]);
        assert(board.contains_pair(s[0].0, s[0].1));
        assert(board.contains_key(s[0].0));
        let i = choose|i: int| 0 <= i < r.len() && (#[trigger] r[i]).0 == s[0].0;
        assert(board.contains_pair(r[i].0, r[i].1));
        assert(r[i] == s[0]);
        if i > 0 && j > 0 {
            assert(outranks(r[0], r[i]));
            assert(outranks(s[0], s[j]));
            law_outranks_total(r[0], s[0]);
        }
        assert(r[0] == s[0]);
        let rest = board.remove(r[0].0);
        lemma_ranking_of_rest(board, r);
        lemma_ranking_of_rest(board, s);
        law_ranking_unique(rest, r.drop_first(), s.drop_first());
        assert(r =~= seq![r[0]] + r.drop_first());
        assert(s =~= seq![s[0]] + s.drop_first());
    }
}

proof fn lemma_ranking_of_rest(board: Map<Seq<char>, u64>, r: Seq<(Seq<char>, u64)>)
    requires
        is_ranking(board, r),
        r.len() > 0,
    ensures
        is_ranking(board.remove(r[0].0), r.drop_first()),
{
    let rest = board.remove(r[0].0);
    let tail = r.drop_first();
    assert forall|i: int| 0 <= i < tail.len() implies rest.contains_pair(
        (#[trigger] tail[i]).0,
        tail[i].1,
    ) by {
        assert(tail[i] == r[i + 1]);
        assert(board.contains_pair(r[i + 1].0, r[i + 1].1));
        if r[i + 1].0 == r[0].0 {
            assert(board.contains_pair(r[0].0, r[0].1));
            assert(outranks(r[0], r[i + 1]));
            law_outranks_total(r[0], r[i + 1]);
        }
    }
    assert forall|d: Seq<char>| #[trigger] rest.contains_key(d) implies exists|i: int|
        0 <= i < tail.len() && (#[trigger] tail[i]).0 == d by {
        assert(board.contains_key(d));
        let i = choose|i: int| 0 <= i < r.len() && (#[trigger] r[i]).0 == d;
        assert(tail[i - 1].0 == d);
    }
}

/// How many standings of a ranking stand above `x`.
spec fn place(r: Seq<(Seq<char>, u64)>, x: (Seq<char>, u64)) -> nat
    decreases r.len(),
{
    if r.len() == 0 || !outranks(r[0], x) {
        0
    } else {
        1 + place(r.drop_first(), x)
    }
}

proof fn lemma_place(r: Seq<(Seq<char>, u64)>, x: (Seq<char>, u64))
    requires
        forall|i: int, j: int|
            0 <= i < j < r.len() ==> outranks(#[trigger] r[i], #[trigger] r[j]),
        forall|i: int| 0 <= i < r.len() ==> #[trigger] r[i] != x,
    ensures
        place(r, x) <= r.len(),
        forall|i: int| 0 <= i < place(r, x) ==> outranks(#[trigger] r[i], x),
        forall|i: int| place(r, x) <= i < r.len() ==> outranks(x, #[trigger] r[i]),
    decreases r.len(),
{
    if r.len() > 0 {
        law_outranks_total(r[0], x);
        if outranks(r[0], x) {
            let tail = r.drop_first();
            lemma_place(tail, x);
            assert forall|i: int| 0 <= i < place(r, x) implies outranks(#[trigger] r[i], x) by {
                if i > 0 {
                    assert(outranks(tail[i - 1], x));
                }
            }
            assert forall|i: int| place(r, x) <= i < r.len() implies outranks(
                x,
                #[trigger] r[i],
            ) by {
                assert(outranks(x, tail[i - 1]));
            }
        } else {
            assert forall|i: int| 0 <= i < r.len() implies outranks(x, #[trigger] r[i]) by {
                if i > 0 {
                    law_outranks_transitive(x, r[0], r[i]);
                }
            }
        }
    }
}

/// A board of finitely many domains has a ranking.
pub proof fn law_ranking_exists(board: Map<Seq<char>, u64>)
    requires
        board.dom().finite(),
    ensures
        is_ranking(board, ranking(board)),
    decreases board.dom().len(),
{
    if board.dom().is_empty() {
        assert(is_ranking(board, Seq::empty()));
    } else {
        let d = board.dom().choose();
        let rest = board.remove(d);
        assert(rest.dom() =~= board.dom().remove(d));
        law_ranking_exists(rest);
        let r = ranking(rest);
        let x = (d, board[d]);
        assert forall|i: int| 0 <= i < r.len() implies #[trigger] r[i] != x by {
            assert(rest.contains_pair(r[i].0, r[i].1));
        }
        lemma_place(r, x);
        let k = place(r, x) as int;
        let s = r.insert(k, x);
        assert forall|i: int| 0 <= i < s.len() implies board.contains_pair(
            (#[trigger] s[i]).0,
            s[i].1,
        ) by {
            if i < k {
                assert(rest.contains_pair(r[i].0, r[i].1));
            } else if i > k {
                assert(s[i] == r[i - 1]);
                assert(rest.contains_pair(r[i - 1].0, r[i - 1].1));
            }
        }
        assert forall|i: int, j: int| 0 <= i < j < s.len() implies outranks(
            #[trigger] s[i],
            #[trigger] s[j],
        ) by {
            let a = if i < k {
                r[i]
            } else if i == k {
                x
            } else {
                r[i - 1]
            };
            let b = if j < k {
                r[j]
            } else if j == k {
                x
            } else {
                r[j - 1]
            };
            assert(s[i] == a && s[j] == b);
        }
        assert forall|e: Seq<char>| #[trigger] board.contains_key(e) implies exists|i: int|
            0 <= i < s.len() && (#[trigger] s[i]).0 == e by {
            if e == d {
                assert(s[k].0 == e);
            } else {
                assert(rest.contains_key(e));
                let i = choose|i: int| 0 <= i < r.len() && (#[trigger] r[i]).0 == e;
                if i < k {
                    assert(s[i].0 == e);
                } else {
                    assert(s[i + 1].0 == e);
                }
            }
        }
        assert(is_ranking(board, s));
    }
}

/// All edits on a board.
pub open spec fn total_edits(board: Map<Seq<char>, u64>) -> nat
    decreases board.dom().len(),
    when board.dom().finite()
{
    if board.dom().is_empty() {
        0
    } else {
        let d = board.dom().choose();
        total_edits(board.remove(d)) + board[d] as nat
    }
}

proof fn lemma_total_edits_remove(board: Map<Seq<char>, u64>, d: Seq<char>)
    requires
        board.dom().finite(),
        board.contains_key(d),
    ensures
        total_edits(board) == total_edits(board.remove(d)) + board[d],
    decreases board.dom().len(),
{
    let c = board.dom().choose();
    assert(board.dom().contains(d));
    assert(board.remove(c).dom() =~= board.dom().remove(c));
    if c != d {
        assert(board.remove(d).dom() =~= board.dom().remove(d));
        lemma_total_edits_remove(board.remove(c), d);
        lemma_total_edits_remove(board.remove(d), c);
        assert(board.remove(c).remove(d) =~= board.remove(d).remove(c));
    }
}

/// One more edit of a domain raises its count and the total of the board by one, leaves every
/// other domain as it was, and adds the domain where the board did not hold it.
pub proof fn law_bump(board: Map<Seq<char>, u64>, domain: Seq<char>)
    requires
        board.dom().finite(),
        edits_of(board, domain) < u64::MAX,
    ensures
        edits_of(bumped(board, domain), domain) == edits_of(board, domain) + 1,
        forall|other: Seq<char>|
            other != domain ==> edits_of(bumped(board, domain), other) == #[trigger] edits_of(
                board,
                other,
            ),
        bumped(board, domain).dom() == board.dom().insert(domain),
        bumped(board, domain).dom().finite(),
        total_edits(bumped(board, domain)) == total_edits(board) + 1,
{
    let after = bumped(board, domain);
    assert(after.dom() =~= board.dom().insert(domain));
    lemma_total_edits_remove(after, domain);
    if board.contains_key(domain) {
        lemma_total_edits_remove(board, domain);
        assert(after.remove(domain) =~= board.remove(domain));
    } else {
        assert(after.remove(domain) =~= board);
    }
}

/// The board after edits of some domains, one after the other.
pub open spec fn bumped_all(board: Map<Seq<char>, u64>, domains: Seq<Seq<char>>) -> Map<
    Seq<char>,
    u64,
>
    decreases domains.len(),
{
    if domains.len() == 0 {
        board
    } else {
        bumped(bumped_all(board, domains.drop_last()), domains.last())
    }
}

/// After any number of edits, each domain has gained as many as it occurs among them. The board
/// holds the domains that it held, and those that occur, and all edits have been counted.
pub proof fn law_edits_are_occurrences(board: Map<Seq<char>, u64>, domains: Seq<Seq<char>>)
    requires
        board.dom().finite(),
        forall|d: Seq<char>| #[trigger]
            edits_of(board, d) + domains.to_multiset().count(d) <= u64::MAX,
    ensures
        forall|d: Seq<char>| #[trigger]
            edits_of(bumped_all(board, domains), d) == edits_of(board, d)
                + domains.to_multiset().count(d),
        forall|d: Seq<char>| #[trigger]
            bumped_all(board, domains).contains_key(d) <==> board.contains_key(d)
                || domains.contains(d),
        bumped_all(board, domains).dom().finite(),
        total_edits(bumped_all(board, domains)) == total_edits(board) + domains.len(),
    decreases domains.len(),
{
    domains.to_multiset_ensures();
    if domains.len() > 0 {
        let front = domains.drop_last();
        let last = domains.last();
        front.to_multiset_ensures();
        assert(domains =~= front.push(last));
        assert(domains.to_multiset() == front.to_multiset().insert(last));
        assert forall|d: Seq<char>| #[trigger]
            edits_of(board, d) + front.to_multiset().count(d) <= u64::MAX by {
            assert(edits_of(board, d) + domains.to_multiset().count(d) <= u64::MAX);
        }
        law_edits_are_occurrences(board, front);
        let before = bumped_all(board, front);
        assert(edits_of(board, last) + domains.to_multiset().count(last) <= u64::MAX);
        assert(edits_of(before, last) < u64::MAX);
        law_bump(before, last);
        assert forall|d: Seq<char>| #[trigger]
            edits_of(bumped_all(board, domains), d) == edits_of(board, d)
                + domains.to_multiset().count(d) by {
            assert(edits_of(before, d) == edits_of(board, d) + front.to_multiset().count(d));
            assert(edits_of(bumped(before, last), d) == edits_of(before, d) + if d == last {
                1int
            } else {
                0
            });
        }
        assert forall|d: Seq<char>| #[trigger]
            bumped_all(board, domains).contains_key(d) <==> board.contains_key(d)
                || domains.contains(d) by {
            assert(bumped_all(board, domains).contains_key(d) <==> before.contains_key(d) || d
                == last);
            if front.contains(d) {
                let i = choose|i: int| 0 <= i < front.len() && front[i] == d;
                assert(domains[i] == d);
            }
            if d == last {
                assert(domains[domains.len() - 1] == d);
            }
            if domains.contains(d) && d != last {
                let i = choose|i: int| 0 <= i < domains.len() && domains[i] == d;
                assert(front[i] == d);
            }
        }
    } else {
        assert(domains.to_multiset() =~= vstd::multiset::Multiset::empty());
    }
}

/// The order in which any number of edits is counted makes no difference.
pub proof fn law_order_of_edits_is_irrelevant(
    board: Map<Seq<char>, u64>,
    a: Seq<Seq<char>>,
    b: Seq<Seq<char>>,
)
    requires
        board.dom().finite(),
        a.to_multiset() == b.to_multiset(),
        forall|d: Seq<char>| #[trigger] edits_of(board, d) + a.to_multiset().count(d) <= u64::MAX,
    ensures
        bumped_all(board, a) == bumped_all(board, b),
{
    law_edits_are_occurrences(board, a);
    law_edits_are_occurrences(board, b);
    a.to_multiset_ensures();
    b.to_multiset_ensures();
    let x = bumped_all(board, a);
    let y = bumped_all(board, b);
    assert forall|d: Seq<char>| #[trigger] x.contains_key(d) <==> y.contains_key(d) by {
        assert(a.contains(d) <==> a.to_multiset().count(d) > 0);
        assert(b.contains(d) <==> b.to_multiset().count(d) > 0);
    }
    assert forall|d: Seq<char>| #[trigger] x.contains_key(d) implies x[d] == y[d] by {
        assert(edits_of(x, d) == edits_of(y, d));
    }
    assert(x =~= y);
}

/// The order in which two edits are counted makes no difference.
pub proof fn law_bumps_commute(board: Map<Seq<char>, u64>, a: Seq<char>, b: Seq<char>)
    ensures
        bumped(bumped(board, a), b) == bumped(bumped(board, b), a),
{
    assert(bumped(bumped(board, a), b) =~= bumped(bumped(board, b), a));
}

/// A domain has the edits that the board holds for it, and none where the board does not hold it.
pub proof fn law_edits_of(board: Map<Seq<char>, u64>, domain: Seq<char>, edits: u64)
    ensures
        edits_of(Map::<Seq<char>, u64>::empty(), domain) == 0,
        edits_of(board.insert(domain, edits), domain) == edits,
        edits_of(board.remove(domain), domain) == 0,
        board.contains_key(domain) ==> edits_of(board, domain) == board[domain],
{
}

/// The order of two byte strings is decided at the first place where they differ, by the smaller
/// byte, or by the end of the shorter one.
pub proof fn law_bytes_before(a: Seq<u8>, b: Seq<u8>, k: int)
    requires
        0 <= k <= a.len(),
        0 <= k <= b.len(),
        forall|i: int| 0 <= i < k ==> a[i] == b[i],
        k < a.len() && k < b.len() ==> a[k] != b[k],
    ensures
        bytes_before(a, b) <==> k < b.len() && (k == a.len() || a[k] < b[k]),
{
    lemma_bytes_before_skip(a, b, k);
}

/// More edits stand above fewer, whatever the names. With equally many, the name stands above
/// whose encoding is smaller at the first byte in which the two differ, or ends there.
pub proof fn law_outranks(a: (Seq<char>, u64), b: (Seq<char>, u64), k: int)
    requires
        0 <= k <= encode_utf8(a.0).len(),
        0 <= k <= encode_utf8(b.0).len(),
        forall|i: int| 0 <= i < k ==> encode_utf8(a.0)[i] == encode_utf8(b.0)[i],
        k < encode_utf8(a.0).len() && k < encode_utf8(b.0).len() ==> encode_utf8(a.0)[k]
            != encode_utf8(b.0)[k],
    ensures
        a.1 > b.1 ==> outranks(a, b),
        a.1 < b.1 ==> !outranks(a, b),
        a.1 == b.1 ==> (outranks(a, b) <==> k < encode_utf8(b.0).len() && (k == encode_utf8(
            a.0,
        ).len() || encode_utf8(a.0)[k] < encode_utf8(b.0)[k])),
{
    law_bytes_before(encode_utf8(a.0), encode_utf8(b.0), k);
}

/// The ranking lists each domain of the board once, with its edits. From one place to any later
/// one the edits never increase, and among domains with equally many the names ascend by bytes.
pub proof fn law_ranking(board: Map<Seq<char>, u64>)
    requires
        board.dom().finite(),
    ensures
        ranking(board).len() == board.dom().len(),
        forall|i: int|
            0 <= i < ranking(board).len() ==> board.contains_key((#[trigger] ranking(board)[i]).0)
                && board[ranking(board)[i].0] == ranking(board)[i].1,
        forall|d: Seq<char>| #[trigger]
            board.contains_key(d) ==> exists|i: int|
                0 <= i < ranking(board).len() && (#[trigger] ranking(board)[i]).0 == d,
        forall|i: int, j: int|
            0 <= i < j < ranking(board).len() ==> {
                &&& (#[trigger] ranking(board)[i]).1 >= (#[trigger] ranking(board)[j]).1
                &&& ranking(board)[i].0 != ranking(board)[j].0
                &&& ranking(board)[i].1 == ranking(board)[j].1 ==> bytes_before(
                    encode_utf8(ranking(board)[i].0),
                    encode_utf8(ranking(board)[j].0),
                )
            },
{
    law_ranking_exists(board);
    let r = ranking(board);
    assert(is_ranking(board, r));
    assert forall|i: int, j: int| 0 <= i < j < r.len() implies (#[trigger] r[i]).0 != (
    #[trigger] r[j]).0 by {
        assert(outranks(r[i], r[j]));
        assert(board.contains_pair(r[i].0, r[i].1));
        assert(board.contains_pair(r[j].0, r[j].1));
        law_outranks_total(r[i], r[j]);
    }
    assert forall|i: int| 0 <= i < r.len() implies board.contains_key((#[trigger] r[i]).0)
        && board[r[i].0] == r[i].1 by {
        assert(board.contains_pair(r[i].0, r[i].1));
    }
    let names = Seq::new(r.len(), |i: int| r[i].0);
    assert(names.no_duplicates());
    assert(names.to_set() =~= board.dom()) by {
        assert forall|d: Seq<char>| board.dom().contains(d) implies names.contains(d) by {
            assert(board.contains_key(d));
            let i = choose|i: int| 0 <= i < r.len() && (#[trigger] r[i]).0 == d;
            assert(names[i] == d);
        }
        assert forall|d: Seq<char>| names.contains(d) implies board.dom().contains(d) by {
            let i = choose|i: int| 0 <= i < names.len() && names[i] == d;
            assert(board.contains_key(r[i].0));
        }
    }
    names.unique_seq_to_set();
}

/// The standings of a list are as many as the list is long, each with the domain and the edits of
/// the element in its place.
pub proof fn law_standings(list: Seq<Standing<'_>>)
    ensures
        standings(list).len() == list.len(),
        forall|i: int|
            0 <= i < list.len() ==> (#[trigger] standings(list)[i]).0 == list[i].domain@
                && standings(list)[i].1 == list[i].edits,
{
}

/// A board without domains has no edits, and a further domain adds just its own.
pub proof fn law_total_edits(board: Map<Seq<char>, u64>, domain: Seq<char>, edits: u64)
    requires
        board.dom().finite(),
        !board.contains_key(domain),
    ensures
        total_edits(Map::<Seq<char>, u64>::empty()) == 0,
        total_edits(board.insert(domain, edits)) == total_edits(board) + edits,
{
    let more = board.insert(domain, edits);
    assert(more.dom() =~= board.dom().insert(domain));
    lemma_total_edits_remove(more, domain);
    assert(more.remove(domain) =~= board);
    assert(Map::<Seq<char>, u64>::empty().dom() =~= Set::empty());
}

/// Standings stand in the order of the ranking: more edits first, whatever the names, and a
/// standing before another of the same domain and edits.
pub proof fn law_standings_by_rank(a: Standing<'_>, b: Standing<'_>)
    ensures
        a.edits > b.edits ==> a.at_most(b) && !b.at_most(a),
        a.edits == b.edits ==> (a.at_most(b) <==> a.domain@ == b.domain@ || bytes_before(
            encode_utf8(a.domain@),
            encode_utf8(b.domain@),
        )),
{
}

} // verus!
