//! Input parsing: splits a raw comma-separated byte string into an ordered,
//! deduplicated sequence of canonical tag names.

use vstd::prelude::*;

use crate::alias::find_alias;
use crate::alias::resolve_spec;
use crate::bytes::capitalize_spec;
use crate::bytes::capitalize_words;
use crate::bytes::seq_eq;
use crate::bytes::trim;
use crate::bytes::trim_spec;
use crate::bytes::views;

verus! {

broadcast use vstd::seq_lib::lemma_seq_contains_after_push;

/// The pieces of `s` between commas, in order, empty pieces kept: the result
/// of splitting on the comma byte.
pub open spec fn split_commas(s: Seq<u8>) -> Seq<Seq<u8>>
    decreases s.len(),
{
    if s.len() == 0 {
        seq![Seq::empty()]
    } else {
        let init = split_commas(s.drop_last());
        if s.last() == 44 {
            init.push(Seq::empty())
        } else {
            init.update(init.len() - 1, init.last().push(s.last()))
        }
    }
}

/// Each piece trimmed, pieces of length at most one discarded, the rest
/// capitalized and passed through alias resolution, in order.
pub open spec fn canon_pieces(ps: Seq<Seq<u8>>) -> Seq<Seq<u8>>
    decreases ps.len(),
{
    if ps.len() == 0 {
        Seq::empty()
    } else {
        let init = canon_pieces(ps.drop_last());
        let t = trim_spec(ps.last());
        if t.len() > 1 {
            init.push(resolve_spec(capitalize_spec(t)))
        } else {
            init
        }
    }
}

/// Deduplication keeping the first occurrence of each value, in order.
pub open spec fn dedup_first(ps: Seq<Seq<u8>>) -> Seq<Seq<u8>>
    decreases ps.len(),
{
    if ps.len() == 0 {
        Seq::empty()
    } else {
        let init = dedup_first(ps.drop_last());
        if ps.drop_last().contains(ps.last()) {
            init
        } else {
            init.push(ps.last())
        }
    }
}

/// The canonical tag sequence of a raw input: split on commas, trim, discard
/// trivial pieces, capitalize, resolve aliases, and collapse duplicates while
/// keeping first-seen order.
pub open spec fn parse_spec(s: Seq<u8>) -> Seq<Seq<u8>> {
    dedup_first(canon_pieces(split_commas(s)))
}

/// Deduplication keeps exactly the values that occur in the input.
pub proof fn lemma_dedup_first_contains(ps: Seq<Seq<u8>>, x: Seq<u8>)
    ensures
        dedup_first(ps).contains(x) <==> ps.contains(x),
    decreases ps.len(),
{
    if ps.len() > 0 {
        lemma_dedup_first_contains(ps.drop_last(), x);
        assert(ps.contains(x) <==> (ps.drop_last().contains(x) || ps.last() == x)) by {
            if ps.contains(x) {
                let i = choose|i: int| 0 <= i < ps.len() && ps[i] == x;
                if i < ps.len() - 1 {
                    assert(ps.drop_last()[i] == x);
                }
            }
            if ps.drop_last().contains(x) {
                let i = choose|i: int| 0 <= i < ps.drop_last().len() && ps.drop_last()[i] == x;
                assert(ps[i] == x);
            }
            if ps.last() == x {
                assert(ps[ps.len() - 1] == x);
            }
        }
    } else {
        assert(!ps.contains(x));
        assert(!dedup_first(ps).contains(x));
    }
}

/// The deduplicated sequence holds no value twice.
pub proof fn lemma_dedup_first_distinct(ps: Seq<Seq<u8>>)
    ensures
        forall|i: int, j: int|
            0 <= i < j < dedup_first(ps).len() ==> dedup_first(ps)[i] != dedup_first(ps)[j],
    decreases ps.len(),
{
    if ps.len() > 0 {
        lemma_dedup_first_distinct(ps.drop_last());
        let init = dedup_first(ps.drop_last());
        if !ps.drop_last().contains(ps.last()) {
            assert forall|i: int, j: int|
                0 <= i < j < dedup_first(ps).len() implies dedup_first(ps)[i] != dedup_first(
                ps,
            )[j] by {
                if j == init.len() {
                    assert(init.contains(init[i]));
                    lemma_dedup_first_contains(ps.drop_last(), init[i]);
                }
            }
        }
    }
}

/// Membership test over a vector of byte vectors.
fn vec_contains(vs: &Vec<Vec<u8>>, x: &Vec<u8>) -> (r: bool)
    ensures
        r == views(vs@).contains(x@),
{
    let mut i: usize = 0;
    while i < vs.len()
        invariant
            i <= vs@.len(),
            forall|j: int| 0 <= j < i ==> views(vs@)[j] != x@,
        decreases vs@.len() - i,
    {
        if seq_eq(&vs[i], x) {
            proof {
                assert(views(vs@)[i as int] == x@);
            }
            return true;
        }
        i += 1;
    }
    false
}

/// Splits a raw byte string on commas, keeping empty pieces.
pub fn split_on_commas(s: &Vec<u8>) -> (r: Vec<Vec<u8>>)
    ensures
        views(r@) == split_commas(s@),
{
    let mut done: Vec<Vec<u8>> = Vec::new();
    let mut cur: Vec<u8> = Vec::new();
    proof {
        assert(s@.subrange(0, 0) =~= Seq::<u8>::empty());
        assert(views(done@).push(cur@) =~= split_commas(s@.subrange(0, 0)));
    }
    let mut i: usize = 0;
    while i < s.len()
        invariant
            i <= s@.len(),
            split_commas(s@.subrange(0, i as int)) == views(done@).push(cur@),
        decreases s.len() - i,
    {
        proof {
            let pre = s@.subrange(0, i + 1);
            assert(pre.drop_last() =~= s@.subrange(0, i as int));
            assert(pre.last() == s@[i as int]);
        }
        let b = s[i];
        if b == 44 {
            let ghost old_done = done@;
            let ghost old_cur = cur@;
            done.push(cur);
            cur = Vec::new();
            proof {
                assert(views(done@) =~= views(old_done).push(old_cur));
                assert(split_commas(s@.subrange(0, i + 1)) =~= views(done@).push(cur@));
            }
        } else {
            let ghost old_cur = cur@;
            cur.push(b);
            proof {
                let init = views(done@).push(old_cur);
                assert(init.last() == old_cur);
                assert(init.update(init.len() - 1, old_cur.push(s@[i as int])) =~= views(
                    done@,
                ).push(cur@));
            }
        }
        i += 1;
    }
    proof {
        assert(s@.subrange(0, s@.len() as int) =~= s@);
    }
    let ghost old_done = done@;
    let ghost old_cur = cur@;
    done.push(cur);
    proof {
        assert(views(done@) =~= views(old_done).push(old_cur));
    }
    done
}

/// An ordered, deduplicated sequence of canonical tag names.
pub struct Characters(pub Vec<Vec<u8>>);

impl Default for Characters {
    /// The empty tag set.
    fn default() -> (r: Characters)
        ensures
            views(r.0@) == Seq::<Seq<u8>>::empty(),
    {
        proof {
            assert(views(Seq::<Vec<u8>>::empty()) =~= Seq::<Seq<u8>>::empty());
        }
        Characters(Vec::new())
    }
}

impl Characters {
    /// Parses raw input into the canonical tag sequence: split on commas,
    /// trim whitespace, discard pieces of length at most one, capitalize
    /// words, resolve aliases, and keep only the first occurrence of each
    /// canonical name. An empty input yields an empty tag set.
    pub fn parse(text: &Vec<u8>) -> (r: Characters)
        ensures
            views(r.0@) == parse_spec(text@),
    {
        let pieces = split_on_commas(text);
        let ghost all = views(pieces@);
        let mut out: Vec<Vec<u8>> = Vec::new();
        proof {
            assert(all.subrange(0, 0) =~= Seq::<Seq<u8>>::empty());
            assert(views(out@) =~= dedup_first(canon_pieces(all.subrange(0, 0))));
        }
        let mut j: usize = 0;
        while j < pieces.len()
            invariant
                j <= pieces@.len(),
                all == views(pieces@),
                views(out@) == dedup_first(canon_pieces(all.subrange(0, j as int))),
            decreases pieces@.len() - j,
        {
            proof {
                let pre = all.subrange(0, j + 1);
                assert(pre.drop_last() =~= all.subrange(0, j as int));
                assert(pre.last() == pieces@[j as int]@);
            }
            let ghost canon = canon_pieces(all.subrange(0, j as int));
            let t = trim(&pieces[j]);
            if t.len() > 1 {
                let c = find_alias(capitalize_words(&t));
                let present = vec_contains(&out, &c);
                proof {
                    lemma_dedup_first_contains(canon, c@);
                    assert(canon_pieces(all.subrange(0, j + 1)) == canon.push(c@));
                }
                if !present {
                    out.push(c);
                    proof {
                        assert(views(out@) =~= dedup_first(canon).push(c@));
                        assert(canon.push(c@).drop_last() =~= canon);
                    }
                } else {
                    proof {
                        assert(canon.push(c@).drop_last() =~= canon);
                    }
                }
            } else {
                proof {
                    assert(canon_pieces(all.subrange(0, j + 1)) == canon);
                }
            }
            j += 1;
        }
        proof {
            assert(all.subrange(0, all.len() as int) =~= all);
        }
        Characters(out)
    }
}

/// Parsing collapses duplicates: the canonical tag sequence of any raw input
/// holds no name twice, so only the first occurrence of a name survives.
pub proof fn lemma_parse_no_duplicates(raw: Seq<u8>)
    ensures
        forall|i: int, j: int|
            0 <= i < j < parse_spec(raw).len() ==> parse_spec(raw)[i] != parse_spec(raw)[j],
{
    lemma_dedup_first_distinct(canon_pieces(split_commas(raw)));
}

/// Parsing keeps every canonical name that the pieces of the input resolve
/// to: deduplication drops occurrences, never names.
pub proof fn lemma_parse_keeps_names(raw: Seq<u8>, x: Seq<u8>)
    ensures
        parse_spec(raw).contains(x) <==> canon_pieces(split_commas(raw)).contains(x),
{
    lemma_dedup_first_contains(canon_pieces(split_commas(raw)), x);
}

} // verus!
