//! Selection among discovered workspace files.  The filesystem walk
//! happens outside the library; it hands in each found file's depth and
//! path, and the library picks and orders them: shallowest first, and
//! at equal depth in byte order of the path.

use vstd::prelude::*;

verus! {

use vstd::string::StrSliceExecFns;
use vstd::string::StringSliceAdditionalSpecFns;
use vstd::utf8::encode_utf8;

/// Byte order on paths: the shorter run of equal bytes comes first.
pub open spec fn bytes_le(a: Seq<u8>, b: Seq<u8>) -> bool
    decreases a.len(),
{
    if a.len() == 0 {
        true
    } else if b.len() == 0 {
        false
    } else if a[0] < b[0] {
        true
    } else if a[0] > b[0] {
        false
    } else {
        bytes_le(a.skip(1), b.skip(1))
    }
}

/// The byte order is total.
pub proof fn lemma_bytes_le_total(a: Seq<u8>, b: Seq<u8>)
    ensures
        bytes_le(a, b) || bytes_le(b, a),
    decreases a.len(),
{
    if a.len() > 0 && b.len() > 0 && a[0] == b[0] {
        lemma_bytes_le_total(a.skip(1), b.skip(1));
    }
}

/// The byte order is transitive.
pub proof fn lemma_bytes_le_trans(a: Seq<u8>, b: Seq<u8>, c: Seq<u8>)
    requires
        bytes_le(a, b),
        bytes_le(b, c),
    ensures
        bytes_le(a, c),
    decreases a.len(),
{
    if a.len() > 0 && b.len() > 0 && c.len() > 0 && a[0] == b[0] && b[0] == c[0] {
        lemma_bytes_le_trans(a.skip(1), b.skip(1), c.skip(1));
    }
}

/// One discovered file: how deep the walk found it, and its path.
#[derive(Debug, PartialEq, Eq)]
pub struct Candidate {
    pub depth: usize,
    pub path: String,
}

/// The model of a discovered file.
pub struct CandData {
    pub depth: int,
    pub path: Seq<u8>,
}

impl View for Candidate {
    type V = CandData;

    open spec fn view(&self) -> CandData {
        CandData { depth: self.depth as int, path: encode_utf8(self.path@) }
    }
}

/// The selection order: shallowest first, then byte order of the path.
pub open spec fn cand_le(a: CandData, b: CandData) -> bool {
    a.depth < b.depth || (a.depth == b.depth && bytes_le(a.path, b.path))
}

/// The selection order is total.
pub proof fn lemma_cand_le_total(a: CandData, b: CandData)
    ensures
        cand_le(a, b) || cand_le(b, a),
{
    lemma_bytes_le_total(a.path, b.path);
}

/// The selection order is transitive.
pub proof fn lemma_cand_le_trans(a: CandData, b: CandData, c: CandData)
    requires
        cand_le(a, b),
        cand_le(b, c),
    ensures
        cand_le(a, c),
{
    if a.depth == b.depth && b.depth == c.depth {
        lemma_bytes_le_trans(a.path, b.path, c.path);
    }
}

/// Inserting into an ordered sequence: the new element goes in front of
/// the first element it precedes.
pub open spec fn sorted_insert(s: Seq<CandData>, x: CandData) -> Seq<CandData>
    decreases s.len(),
{
    if s.len() == 0 {
        seq![x]
    } else if cand_le(x, s[0]) {
        seq![x] + s
    } else {
        seq![s[0]] + sorted_insert(s.skip(1), x)
    }
}

/// The ordering of a whole sequence, element by element.
pub open spec fn sort_spec(s: Seq<CandData>) -> Seq<CandData>
    decreases s.len(),
{
    if s.len() == 0 {
        Seq::empty()
    } else {
        sorted_insert(sort_spec(s.drop_last()), s.last())
    }
}

/// Whether a sequence is ordered by the selection order.
pub open spec fn cand_sorted(s: Seq<CandData>) -> bool {
    forall|i: int, j: int| 0 <= i < j < s.len() ==> cand_le(#[trigger] s[i], #[trigger] s[j])
}

/// Inserting into an ordered sequence keeps it ordered, keeps its
/// elements, and adds the new one.
pub proof fn lemma_sorted_insert_ok(s: Seq<CandData>, x: CandData)
    requires
        cand_sorted(s),
    ensures
        cand_sorted(sorted_insert(s, x)),
        sorted_insert(s, x).len() == s.len() + 1,
        sorted_insert(s, x).to_multiset() == s.to_multiset().insert(x),
    decreases s.len(),
{
    broadcast use vstd::seq_lib::group_to_multiset_ensures;

    let r = sorted_insert(s, x);
    if s.len() == 0 {
        assert(r =~= seq![x]);
        assert(seq![x].drop_last() =~= Seq::<CandData>::empty());
        assert(r.to_multiset() == s.to_multiset().insert(x)) by {
            assert(seq![x] =~= Seq::<CandData>::empty().push(x));
            assert(s.to_multiset() == Seq::<CandData>::empty().to_multiset());
        }
    } else if cand_le(x, s[0]) {
        assert(r == seq![x] + s);
        assert forall|i: int, j: int| 0 <= i < j < r.len() implies cand_le(
            #[trigger] r[i],
            #[trigger] r[j],
        ) by {
            if i == 0 {
                if j == 1 {
                } else {
                    lemma_cand_le_trans(x, s[0], s[j - 1]);
                }
            }
        }
        assert(r =~= s.insert(0, x));
        assert(r.to_multiset() == s.to_multiset().insert(x));
    } else {
        let tail = s.skip(1);
        assert(cand_sorted(tail)) by {
            assert(forall|i: int, j: int|
                0 <= i < j < tail.len() ==> tail[i] == s[i + 1] && tail[j] == s[j + 1]);
        }
        lemma_sorted_insert_ok(tail, x);
        let rt = sorted_insert(tail, x);
        assert(r == seq![s[0]] + rt);
        // the head precedes the inserted element and every tail element
        lemma_cand_le_total(x, s[0]);
        assert(cand_le(s[0], x));
        assert forall|i: int, j: int| 0 <= i < j < r.len() implies cand_le(
            #[trigger] r[i],
            #[trigger] r[j],
        ) by {
            if i == 0 {
                assert(rt.to_multiset().contains(r[j]));
                assert(rt.to_multiset() == tail.to_multiset().insert(x));
                if r[j] == x {
                    assert(cand_le(s[0], x));
                } else {
                    assert(tail.to_multiset().contains(r[j]));
                    let w = choose|w: int| 0 <= w < tail.len() && tail[w] == r[j];
                    assert(cand_le(s[0], tail[w]));
                }
            }
        }
        assert(r.to_multiset() == s.to_multiset().insert(x)) by {
            assert(r =~= rt.insert(0, s[0]));
            assert(r.to_multiset() == rt.to_multiset().insert(s[0]));
            assert(s =~= tail.insert(0, s[0]));
            assert(s.to_multiset() == tail.to_multiset().insert(s[0]));
            assert(rt.to_multiset() == tail.to_multiset().insert(x));
            assert(tail.to_multiset().insert(x).insert(s[0]) =~= tail.to_multiset().insert(
                s[0],
            ).insert(x));
        }
    }
}

/// The ordering of a sequence is ordered and holds the same elements.
pub proof fn lemma_sort_spec_ok(s: Seq<CandData>)
    ensures
        cand_sorted(sort_spec(s)),
        sort_spec(s).len() == s.len(),
        sort_spec(s).to_multiset() == s.to_multiset(),
    decreases s.len(),
{
    broadcast use vstd::seq_lib::group_to_multiset_ensures;

    if s.len() == 0 {
    } else {
        lemma_sort_spec_ok(s.drop_last());
        lemma_sorted_insert_ok(sort_spec(s.drop_last()), s.last());
        assert(s =~= s.drop_last().push(s.last()));
        assert(s.to_multiset() == s.drop_last().to_multiset().insert(s.last()));
    }
}

/// The first of an ordered, nonempty sequence precedes every element.
pub proof fn lemma_sorted_first_min(s: Seq<CandData>)
    requires
        cand_sorted(s),
        s.len() >= 1,
    ensures
        forall|j: int| 0 <= j < s.len() ==> cand_le(s[0], #[trigger] s[j]),
{
    assert forall|j: int| 0 <= j < s.len() implies cand_le(s[0], #[trigger] s[j]) by {
        if j > 0 {
            assert(cand_le(s[0], s[j]));
        } else {
            lemma_cand_le_total(s[0], s[0]);
        }
    }
}

/// The models of a candidate vector.
pub open spec fn cands_view(cs: Seq<Candidate>) -> Seq<CandData>
    decreases cs,
{
    if cs.len() == 0 {
        Seq::empty()
    } else {
        seq![cs[0]@] + cands_view(cs.subrange(1, cs.len() as int))
    }
}

/// Element `i` of a viewed candidate sequence is the view of element
/// `i`.
pub proof fn lemma_cands_view_index(cs: Seq<Candidate>)
    ensures
        cands_view(cs).len() == cs.len(),
        forall|i: int| 0 <= i < cs.len() ==> #[trigger] cands_view(cs)[i] == cs[i]@,
    decreases cs.len(),
{
    if cs.len() > 0 {
        lemma_cands_view_index(cs.subrange(1, cs.len() as int));
    }
}

/// Whether `a` comes no later than `b` in the selection order.
pub fn cand_le_exec(a: &Candidate, b: &Candidate) -> (r: bool)
    ensures
        r == cand_le(a@, b@),
{
    if a.depth < b.depth {
        return true;
    }
    if a.depth > b.depth {
        return false;
    }
    let av = a.path.as_bytes_vec();
    let bv = b.path.as_bytes_vec();
    let mut i: usize = 0;
    proof {
        assert(av@.skip(0) =~= av@);
        assert(bv@.skip(0) =~= bv@);
    }
    loop
        invariant
            i <= av@.len(),
            i <= bv@.len(),
            av@ == a@.path,
            bv@ == b@.path,
            a@.depth == b@.depth,
            bytes_le(a@.path, b@.path) == bytes_le(av@.skip(i as int), bv@.skip(i as int)),
        decreases av@.len() - i,
    {
        if i >= av.len() {
            return true;
        }
        if i >= bv.len() {
            return false;
        }
        if av[i] < bv[i] {
            return true;
        }
        if av[i] > bv[i] {
            return false;
        }
        proof {
            assert(av@.skip(i as int)[0] == av@[i as int]);
            assert(av@.skip(i as int).skip(1) =~= av@.skip(i + 1));
            assert(bv@.skip(i as int).skip(1) =~= bv@.skip(i + 1));
        }
        i += 1;
    }
}

/// Orders candidates: shallowest first, then byte order of the path.
pub fn sort_candidates(cs: &Vec<Candidate>) -> (r: Vec<Candidate>)
    ensures
        cands_view(r@) == sort_spec(cands_view(cs@)),
{
    proof {
        lemma_cands_view_index(cs@);
    }
    let mut out: Vec<Candidate> = Vec::new();
    let mut n: usize = 0;
    proof {
        assert(cands_view(cs@).take(0).len() == 0);
        assert(sort_spec(cands_view(cs@).take(0)) =~= cands_view(out@));
    }
    while n < cs.len()
        invariant
            n <= cs@.len(),
            cands_view(cs@).len() == cs@.len(),
            forall|i: int| 0 <= i < cs@.len() ==> #[trigger] cands_view(cs@)[i] == cs@[i]@,
            cands_view(out@) == sort_spec(cands_view(cs@).take(n as int)),
        decreases cs@.len() - n,
    {
        let x = Candidate { depth: cs[n].depth, path: clone_string(&cs[n].path) };
        proof {
            lemma_sort_spec_ok(cands_view(cs@).take(n as int));
        }
        insert_sorted(&mut out, x);
        proof {
            assert(cands_view(cs@).take(n + 1).drop_last() =~= cands_view(cs@).take(n as int));
            assert(cands_view(cs@).take(n + 1).last() == cands_view(cs@)[n as int]);
        }
        n += 1;
    }
    proof {
        assert(cands_view(cs@).take(cs@.len() as int) =~= cands_view(cs@));
    }
    out
}

/// A structurally equal copy of a string.
pub fn clone_string(s: &String) -> (r: String)
    ensures
        r@ == s@,
{
    let c = s.clone();
    c
}

/// The insertion place: where the new element first precedes one.
fn find_insert_pos(out: &Vec<Candidate>, x: &Candidate) -> (p: usize)
    requires
        cands_view(out@).len() == out@.len(),
        forall|i: int| 0 <= i < out@.len() ==> #[trigger] cands_view(out@)[i] == out@[i]@,
    ensures
        p <= out@.len(),
        forall|k: int| 0 <= k < p ==> !cand_le(x@, #[trigger] cands_view(out@)[k]),
        p < out@.len() ==> cand_le(x@, cands_view(out@)[p as int]),
{
    let mut p: usize = 0;
    while p < out.len()
        invariant
            p <= out@.len(),
            cands_view(out@).len() == out@.len(),
            forall|i: int| 0 <= i < out@.len() ==> #[trigger] cands_view(out@)[i] == out@[i]@,
            forall|k: int| 0 <= k < p ==> !cand_le(x@, #[trigger] cands_view(out@)[k]),
        decreases out@.len() - p,
    {
        if cand_le_exec(x, &out[p]) {
            return p;
        }
        p += 1;
    }
    p
}

/// Where the new element goes: in front of the first element it
/// precedes.
proof fn lemma_sorted_insert_at(s: Seq<CandData>, x: CandData, p: int)
    requires
        0 <= p <= s.len(),
        forall|k: int| 0 <= k < p ==> !cand_le(x, #[trigger] s[k]),
        p < s.len() ==> cand_le(x, s[p]),
    ensures
        sorted_insert(s, x) == s.take(p) + seq![x] + s.skip(p),
    decreases s.len(),
{
    if s.len() == 0 {
        assert(sorted_insert(s, x) == seq![x]);
        assert(s.take(0) + seq![x] + s.skip(0) =~= seq![x]);
    } else if p == 0 {
        assert(cand_le(x, s[0]));
        assert(s.take(0) + seq![x] + s.skip(0) =~= seq![x] + s);
    } else {
        assert(!cand_le(x, s[0]));
        let tail = s.skip(1);
        assert(forall|k: int| 0 <= k < p - 1 ==> tail[k] == s[k + 1]);
        assert(p - 1 < tail.len() ==> cand_le(x, tail[p - 1]));
        lemma_sorted_insert_at(tail, x, p - 1);
        assert(sorted_insert(s, x) == seq![s[0]] + (tail.take(p - 1) + seq![x] + tail.skip(
            p - 1,
        )));
        assert(seq![s[0]] + (tail.take(p - 1) + seq![x] + tail.skip(p - 1)) =~= s.take(p)
            + seq![x] + s.skip(p));
    }
}

/// Inserts one candidate into an ordered vector, keeping the order.
fn insert_sorted(out: &mut Vec<Candidate>, x: Candidate)
    ensures
        cands_view(final(out)@) == sorted_insert(cands_view(old(out)@), x@),
{
    proof {
        lemma_cands_view_index(out@);
    }
    let ghost pre = cands_view(out@);
    let p = find_insert_pos(out, &x);
    let ghost gx = x@;
    out.insert(p, x);
    proof {
        lemma_cands_view_index(out@);
        lemma_sorted_insert_at(pre, gx, p as int);
        assert(cands_view(out@) =~= pre.take(p as int) + seq![gx] + pre.skip(p as int));
    }
}


} // verus!
