//! The collision resolver: consumes the physics collaborator's report of
//! active-contact pairs for one tick, flags touched pieces, and applies the
//! merge rule.
//!
//! Each unordered pair is processed at most once per pass, whatever the
//! report repeats; a pair naming a piece destroyed earlier in the same pass
//! is a defined lookup miss and is skipped. Each merge destroys the
//! higher-identifier piece and advances the survivor's tier, so every merge
//! lowers the settled count by exactly one.

use vstd::prelude::*;
use crate::fruit_type::FruitType;
use crate::registry::{
    Fruit, Piece, PieceRegistry, at_most_one_preview, has_id, has_preview, idx_of,
    lemma_idx_of_unique, lemma_num_settled_update, lemma_num_settled_remove, lemma_remove_id_at,
    lemma_wf_remove, lemma_wf_update, num_settled, piece_at, remove_id, unique_ids,
};

verus! {

/// A merge that happened during a resolution pass, for the audio/visual
/// collaborator: which piece survived, its new kind, and where it stood.
#[derive(Clone, Copy, Debug, PartialEq, Eq, Structural)]
pub struct MergeEvent {
    /// Identifier of the surviving piece.
    pub id: u64,
    /// The survivor's new kind.
    pub tier: FruitType,
    /// x-coordinate of the survivor when the merge happened.
    pub x: i32,
    /// y-coordinate of the survivor when the merge happened.
    pub y: i32,
}

/// The piece with its touched flag set.
pub open spec fn mark(p: Piece) -> Piece {
    Piece { has_collided: true, ..p }
}

/// The unordered pair's canonical key.
pub open spec fn norm_pair(a: u64, b: u64) -> (u64, u64) {
    if a <= b {
        (a, b)
    } else {
        (b, a)
    }
}

/// Whether a reported pair names two distinct live settled pieces.
pub open spec fn pair_live(s: Seq<Piece>, a: u64, b: u64) -> bool {
    &&& a != b
    &&& has_id(s, a)
    &&& has_id(s, b)
    &&& !piece_at(s, a).is_preview
    &&& !piece_at(s, b).is_preview
}

/// One reported contact pair, applied to the pieces.
///
/// A pair that does not name two distinct live settled pieces changes
/// nothing. Otherwise both pieces are flagged; if they share a kind that
/// has a successor, the higher-identifier piece is destroyed and the
/// lower-identifier survivor advances to that kind, keeping its position.
pub open spec fn step_pair(s: Seq<Piece>, a: u64, b: u64) -> (Seq<Piece>, Option<MergeEvent>) {
    if !pair_live(s, a, b) {
        (s, None::<MergeEvent>)
    } else {
        let ia = idx_of(s, a);
        let ib = idx_of(s, b);
        let s1 = s.update(ia, mark(s[ia])).update(ib, mark(s[ib]));
        if s[ia].fruit.0 == s[ib].fruit.0 {
            match s[ia].fruit.0.spec_successor() {
                None => (s1, None::<MergeEvent>),
                Some(next) => {
                    let sur = if a < b {
                        a
                    } else {
                        b
                    };
                    let gone = if a < b {
                        b
                    } else {
                        a
                    };
                    let isur = idx_of(s, sur);
                    let merged = Piece { fruit: Fruit(next), has_collided: true, ..s[isur] };
                    (
                        remove_id(s1.update(isur, merged), gone),
                        Some(MergeEvent { id: sur, tier: next, x: s[isur].x, y: s[isur].y }),
                    )
                },
            }
        } else {
            (s1, None::<MergeEvent>)
        }
    }
}

/// A whole resolution pass: the reported pairs in order, each unordered
/// pair applied at most once, with the merge events in the order they
/// happened.
pub open spec fn resolve(s: Seq<Piece>, pairs: Seq<(u64, u64)>, seen: Set<(u64, u64)>) -> (
    Seq<Piece>,
    Seq<MergeEvent>,
)
    decreases pairs.len(),
{
    if pairs.len() == 0 {
        (s, Seq::<MergeEvent>::empty())
    } else {
        let key = norm_pair(pairs[0].0, pairs[0].1);
        if seen.contains(key) {
            resolve(s, pairs.drop_first(), seen)
        } else {
            let stepped = step_pair(s, pairs[0].0, pairs[0].1);
            let rest = resolve(stepped.0, pairs.drop_first(), seen.insert(key));
            (
                rest.0,
                match stepped.1 {
                    Some(e) => seq![e] + rest.1,
                    None => rest.1,
                },
            )
        }
    }
}

/// One pair preserves the registry invariants, never adds a piece, lowers
/// the settled count by one exactly when it merges, and never clears a
/// touched flag.
pub proof fn lemma_step_pair_props(s: Seq<Piece>, a: u64, b: u64, bound: u64)
    requires
        unique_ids(s),
        at_most_one_preview(s),
    ensures
        ({
            let r = step_pair(s, a, b);
            &&& unique_ids(r.0)
            &&& at_most_one_preview(r.0)
            &&& crate::registry::ids_below(s, bound) ==> crate::registry::ids_below(r.0, bound)
            &&& num_settled(r.0) + (if r.1 is Some {
                1int
            } else {
                0int
            }) == num_settled(s)
            &&& (forall|id: u64| #[trigger] has_id(r.0, id) ==> has_id(s, id))
            &&& (forall|id: u64|
                #[trigger] has_id(r.0, id) && has_id(s, id) && piece_at(s, id).has_collided
                    ==> piece_at(r.0, id).has_collided)
            &&& has_preview(r.0) == has_preview(s)
            &&& (has_preview(s) ==> has_id(r.0, s[crate::registry::preview_idx(s)].id)
                && piece_at(r.0, s[crate::registry::preview_idx(s)].id) == s[
                crate::registry::preview_idx(s)])
        }),
{
    let r = step_pair(s, a, b);
    if !pair_live(s, a, b) {
        assert(r.0 == s);
    } else {
        let ia = idx_of(s, a);
        let ib = idx_of(s, b);
        lemma_idx_of_unique(s, a, ia);
        lemma_idx_of_unique(s, b, ib);
        assert(ia != ib);
        let s1 = s.update(ia, mark(s[ia])).update(ib, mark(s[ib]));
        lemma_wf_update(s, ia, mark(s[ia]), bound);
        lemma_wf_update(s.update(ia, mark(s[ia])), ib, mark(s[ib]), bound);
        lemma_num_settled_update(s, ia, mark(s[ia]));
        lemma_num_settled_update(s.update(ia, mark(s[ia])), ib, mark(s[ib]));
        assert(num_settled(s1) == num_settled(s));
        lemma_seq_same_ids_helpers(s, s1);
        if s[ia].fruit.0 == s[ib].fruit.0 && s[ia].fruit.0.spec_successor() is Some {
            let next = s[ia].fruit.0.spec_successor()->Some_0;
            let sur = if a < b {
                a
            } else {
                b
            };
            let gone = if a < b {
                b
            } else {
                a
            };
            let isur = idx_of(s, sur);
            let igone = idx_of(s, gone);
            assert(isur == if a < b {
                ia
            } else {
                ib
            });
            assert(igone == if a < b {
                ib
            } else {
                ia
            });
            let merged = Piece { fruit: Fruit(next), has_collided: true, ..s[isur] };
            let s2 = s1.update(isur, merged);
            assert(s1[isur].id == s[isur].id);
            lemma_wf_update(s1, isur, merged, bound);
            lemma_num_settled_update(s1, isur, merged);
            lemma_seq_same_ids_helpers(s1, s2);
            assert(s2[igone].id == gone);
            lemma_remove_id_at(s2, gone, igone);
            assert(r.0 == s2.remove(igone));
            lemma_wf_remove(s2, igone, bound);
            lemma_num_settled_remove(s2, igone);
            assert(!s2[igone].is_preview);
            // every survivor keeps its identity and only gains flags
            assert forall|id: u64| #[trigger] has_id(r.0, id) implies has_id(s, id) && (piece_at(
                s,
                id,
            ).has_collided ==> piece_at(r.0, id).has_collided) by {
                let k = choose|k: int| 0 <= k < r.0.len() && r.0[k].id == id;
                let k2: int = if k < igone {
                    k
                } else {
                    k + 1
                };
                assert(r.0[k] == s2[k2]);
                assert(s2[k2].id == s[k2].id);
                lemma_idx_of_unique(s, id, k2);
                lemma_idx_of_unique(r.0, id, k);
                assert(piece_at(r.0, id) == s2[k2]);
                assert(s2[k2].has_collided || s2[k2] == s[k2]);
            }
            // the preview piece, if any, is untouched
            if has_preview(s) {
                let ip = crate::registry::preview_idx(s);
                crate::registry::lemma_preview_idx_unique(s, ip);
                assert(ip != ia && ip != ib);
                assert(s2[ip] == s[ip]);
                let kp: int = if ip < igone {
                    ip
                } else {
                    ip - 1
                };
                assert(ip != igone);
                assert(r.0[kp] == s2[ip]);
                lemma_idx_of_unique(r.0, s[ip].id, kp);
                assert(has_preview(r.0));
            }
            if has_preview(r.0) {
                let kp = crate::registry::preview_idx(r.0);
                crate::registry::lemma_preview_idx_unique(r.0, kp);
                let k2: int = if kp < igone {
                    kp
                } else {
                    kp + 1
                };
                assert(r.0[kp] == s2[k2]);
                assert(k2 != isur && k2 != ia && k2 != ib);
                assert(s2[k2] == s[k2]);
                assert(has_preview(s));
            }
        } else {
            assert(r.0 == s1);
            assert forall|id: u64| #[trigger] has_id(r.0, id) implies has_id(s, id) && (piece_at(
                s,
                id,
            ).has_collided ==> piece_at(r.0, id).has_collided) by {
                let k = choose|k: int| 0 <= k < r.0.len() && r.0[k].id == id;
                lemma_idx_of_unique(s, id, k);
                lemma_idx_of_unique(r.0, id, k);
                assert(s1[k].has_collided || s1[k] == s[k]);
            }
            if has_preview(s) {
                let ip = crate::registry::preview_idx(s);
                crate::registry::lemma_preview_idx_unique(s, ip);
                assert(ip != ia && ip != ib);
                assert(s1[ip] == s[ip]);
                lemma_idx_of_unique(s1, s[ip].id, ip);
                assert(has_preview(s1));
            }
            if has_preview(s1) {
                let kp = crate::registry::preview_idx(s1);
                crate::registry::lemma_preview_idx_unique(s1, kp);
                assert(kp != ia && kp != ib);
                assert(s1[kp] == s[kp]);
                assert(has_preview(s));
            }
        }
    }
}

/// A whole resolution pass preserves the registry invariants, never adds a
/// piece, lowers the settled count by exactly one per merge event, leaves
/// the preview piece untouched, and never clears a touched flag.
pub proof fn lemma_resolve_props(
    s: Seq<Piece>,
    pairs: Seq<(u64, u64)>,
    seen: Set<(u64, u64)>,
    bound: u64,
)
    requires
        unique_ids(s),
        at_most_one_preview(s),
    ensures
        ({
            let r = resolve(s, pairs, seen);
            &&& unique_ids(r.0)
            &&& at_most_one_preview(r.0)
            &&& crate::registry::ids_below(s, bound) ==> crate::registry::ids_below(r.0, bound)
            &&& num_settled(r.0) + r.1.len() == num_settled(s)
            &&& (forall|id: u64| #[trigger] has_id(r.0, id) ==> has_id(s, id))
            &&& (forall|id: u64|
                #[trigger] has_id(r.0, id) && has_id(s, id) && piece_at(s, id).has_collided
                    ==> piece_at(r.0, id).has_collided)
            &&& has_preview(r.0) == has_preview(s)
            &&& (has_preview(s) ==> has_id(r.0, s[crate::registry::preview_idx(s)].id)
                && piece_at(r.0, s[crate::registry::preview_idx(s)].id) == s[
                crate::registry::preview_idx(s)])
        }),
    decreases pairs.len(),
{
    let r = resolve(s, pairs, seen);
    if pairs.len() == 0 {
    } else {
        let key = norm_pair(pairs[0].0, pairs[0].1);
        if seen.contains(key) {
            lemma_resolve_props(s, pairs.drop_first(), seen, bound);
        } else {
            let stepped = step_pair(s, pairs[0].0, pairs[0].1);
            lemma_step_pair_props(s, pairs[0].0, pairs[0].1, bound);
            let s1 = stepped.0;
            lemma_resolve_props(s1, pairs.drop_first(), seen.insert(key), bound);
            let rest = resolve(s1, pairs.drop_first(), seen.insert(key));
            match stepped.1 {
                Some(e) => {
                    assert(r.1 == seq![e] + rest.1);
                    assert(r.1.len() == 1 + rest.1.len());
                },
                None => {},
            }
            assert forall|id: u64| #[trigger] has_id(r.0, id) implies has_id(s, id) by {
                assert(has_id(s1, id));
            }
            assert forall|id: u64|
                #[trigger] has_id(r.0, id) && has_id(s, id) && piece_at(
                    s,
                    id,
                ).has_collided implies piece_at(r.0, id).has_collided by {
                assert(has_id(s1, id));
                assert(piece_at(s1, id).has_collided);
            }
            if has_preview(s) {
                let ip = crate::registry::preview_idx(s);
                crate::registry::lemma_preview_idx_unique(s, ip);
                let pid = s[ip].id;
                assert(piece_at(s1, pid) == s[ip]);
                let i1 = idx_of(s1, pid);
                assert(s1[i1] == s[ip] && s1[i1].is_preview);
                crate::registry::lemma_preview_idx_unique(s1, i1);
                assert(s1[crate::registry::preview_idx(s1)].id == pid);
                assert(piece_at(r.0, pid) == s[ip]);
            }
        }
    }
}

/// Law: merging two touching settled pieces of a tier that has a successor
/// yields exactly one settled piece of the successor tier, standing where
/// the lower-identifier survivor stood and flagged as collided; the other
/// piece is destroyed, so the settled count drops by exactly one.
pub proof fn lemma_merge_same_tier(s: Seq<Piece>, a: u64, b: u64)
    requires
        unique_ids(s),
        at_most_one_preview(s),
        pair_live(s, a, b),
        piece_at(s, a).fruit.0 == piece_at(s, b).fruit.0,
        piece_at(s, a).fruit.0.spec_successor() is Some,
    ensures
        ({
            let r = step_pair(s, a, b);
            let sur = if a < b {
                a
            } else {
                b
            };
            let gone = if a < b {
                b
            } else {
                a
            };
            let next = piece_at(s, a).fruit.0.spec_successor()->Some_0;
            &&& r.1 == Some(
                (MergeEvent { id: sur, tier: next, x: piece_at(s, sur).x, y: piece_at(s, sur).y }),
            )
            &&& has_id(r.0, sur)
            &&& !has_id(r.0, gone)
            &&& piece_at(r.0, sur) == (Piece {
                fruit: Fruit(next),
                has_collided: true,
                ..piece_at(s, sur)
            })
            &&& !piece_at(r.0, sur).is_preview
            &&& r.0.len() == s.len() - 1
            &&& num_settled(r.0) == num_settled(s) - 1
        }),
{
    let r = step_pair(s, a, b);
    let ia = idx_of(s, a);
    let ib = idx_of(s, b);
    lemma_idx_of_unique(s, a, ia);
    lemma_idx_of_unique(s, b, ib);
    let sur = if a < b {
        a
    } else {
        b
    };
    let gone = if a < b {
        b
    } else {
        a
    };
    let next = s[ia].fruit.0.spec_successor()->Some_0;
    let isur = idx_of(s, sur);
    let igone = idx_of(s, gone);
    let s1 = s.update(ia, mark(s[ia])).update(ib, mark(s[ib]));
    let merged = Piece { fruit: Fruit(next), has_collided: true, ..s[isur] };
    let s2 = s1.update(isur, merged);
    assert(s2[igone].id == gone);
    assert(unique_ids(s2)) by {
        lemma_wf_update(s, ia, mark(s[ia]), u64::MAX);
        lemma_wf_update(s.update(ia, mark(s[ia])), ib, mark(s[ib]), u64::MAX);
        lemma_wf_update(s1, isur, merged, u64::MAX);
    }
    lemma_remove_id_at(s2, gone, igone);
    assert(r.0 == s2.remove(igone));
    let ksur: int = if isur < igone {
        isur
    } else {
        isur - 1
    };
    assert(r.0[ksur] == s2[isur]);
    lemma_wf_remove(s2, igone, u64::MAX);
    lemma_idx_of_unique(r.0, sur, ksur);
    assert forall|k: int| 0 <= k < r.0.len() implies r.0[k].id != gone by {
        let k2: int = if k < igone {
            k
        } else {
            k + 1
        };
        assert(r.0[k] == s2[k2]);
        assert(s2[k2].id == s[k2].id);
    }
    lemma_step_pair_props(s, a, b, u64::MAX);
}

/// Law: two touching settled pieces of the maximal tier do not merge:
/// nothing is destroyed, both keep their kind and position, and both are
/// flagged as collided.
pub proof fn lemma_merge_max_tier(s: Seq<Piece>, a: u64, b: u64)
    requires
        unique_ids(s),
        at_most_one_preview(s),
        pair_live(s, a, b),
        piece_at(s, a).fruit.0 == piece_at(s, b).fruit.0,
        piece_at(s, a).fruit.0.spec_successor() is None,
    ensures
        ({
            let r = step_pair(s, a, b);
            &&& r.1 is None
            &&& r.0.len() == s.len()
            &&& has_id(r.0, a)
            &&& has_id(r.0, b)
            &&& piece_at(r.0, a) == mark(piece_at(s, a))
            &&& piece_at(r.0, b) == mark(piece_at(s, b))
            &&& piece_at(r.0, a).has_collided
            &&& piece_at(r.0, b).has_collided
            &&& piece_at(r.0, a).fruit == piece_at(s, a).fruit
            &&& piece_at(r.0, b).fruit == piece_at(s, b).fruit
            &&& num_settled(r.0) == num_settled(s)
        }),
{
    let r = step_pair(s, a, b);
    let ia = idx_of(s, a);
    let ib = idx_of(s, b);
    lemma_idx_of_unique(s, a, ia);
    lemma_idx_of_unique(s, b, ib);
    let s1 = s.update(ia, mark(s[ia])).update(ib, mark(s[ib]));
    assert(unique_ids(s1)) by {
        lemma_wf_update(s, ia, mark(s[ia]), u64::MAX);
        lemma_wf_update(s.update(ia, mark(s[ia])), ib, mark(s[ib]), u64::MAX);
    }
    assert(s1[ia] == mark(s[ia]));
    assert(s1[ib] == mark(s[ib]));
    lemma_idx_of_unique(s1, a, ia);
    lemma_idx_of_unique(s1, b, ib);
    lemma_step_pair_props(s, a, b, u64::MAX);
}

fn contains_pair(v: &Vec<(u64, u64)>, key: (u64, u64)) -> (r: bool)
    ensures
        r == v@.contains(key),
{
    let n = v.len();
    let mut i: usize = 0;
    while i < n
        invariant
            n == v@.len(),
            i <= n,
            forall|j: int| 0 <= j < i ==> v@[j] != key,
        decreases n - i,
    {
        if v[i].0 == key.0 && v[i].1 == key.1 {
            assert(v@.contains(key));
            return true;
        }
        i = i + 1;
    }
    assert(!v@.contains(key));
    false
}

/// Applies one reported contact pair to the registry, exactly as
/// `step_pair` describes, and reports the merge if one happened.
fn process_pair(registry: &mut PieceRegistry, a: u64, b: u64) -> (ev: Option<MergeEvent>)
    requires
        old(registry).wf(),
    ensures
        final(registry).wf(),
        final(registry).spec_next_id() == old(registry).spec_next_id(),
        final(registry)@ == step_pair(old(registry)@, a, b).0,
        ev == step_pair(old(registry)@, a, b).1,
{
    let ghost s = registry@;
    if a == b {
        return None;
    }
    let ia = match registry.find_index(a) {
        None => {
            return None;
        },
        Some(i) => i,
    };
    let ib = match registry.find_index(b) {
        None => {
            return None;
        },
        Some(i) => i,
    };
    proof {
        lemma_idx_of_unique(s, a, ia as int);
        lemma_idx_of_unique(s, b, ib as int);
    }
    let pa = *registry.get(ia);
    let pb = *registry.get(ib);
    if pa.is_preview || pb.is_preview {
        return None;
    }
    assert(pair_live(s, a, b));
    registry.mark_collided(a);
    proof {
        lemma_idx_of_unique(registry@, b, ib as int);
    }
    registry.mark_collided(b);
    let ghost s1 = s.update(ia as int, mark(s[ia as int])).update(ib as int, mark(s[ib as int]));
    assert(registry@ == s1);
    if pa.fruit.0 == pb.fruit.0 {
        match pa.fruit.0.merge() {
            None => None,
            Some(next) => {
                let sur = if a < b {
                    a
                } else {
                    b
                };
                let gone = if a < b {
                    b
                } else {
                    a
                };
                let ghost isur: int = if a < b {
                    ia as int
                } else {
                    ib as int
                };
                proof {
                    lemma_idx_of_unique(s, sur, isur);
                    lemma_idx_of_unique(registry@, sur, isur);
                }
                registry.mutate_tier(sur, next);
                assert(registry@ == s1.update(
                    isur,
                    (Piece { fruit: Fruit(next), has_collided: true, ..s[isur] }),
                ));
                registry.destroy(gone);
                let psur = if a < b {
                    pa
                } else {
                    pb
                };
                Some(MergeEvent { id: sur, tier: next, x: psur.x, y: psur.y })
            },
        }
    } else {
        None
    }
}

/// Applies one tick's contact report to the registry: flags every touched
/// settled piece and performs each merge, processing each unordered pair
/// at most once whatever the report repeats. Returns the merge events in
/// the order they happened.
///
/// The settled count drops by exactly one per merge event, and no piece's
/// collided flag is ever cleared.
pub fn handle_collisions(registry: &mut PieceRegistry, pairs: &Vec<(u64, u64)>) -> (events: Vec<
    MergeEvent,
>)
    requires
        old(registry).wf(),
    ensures
        final(registry).wf(),
        final(registry).spec_next_id() == old(registry).spec_next_id(),
        final(registry)@ == resolve(old(registry)@, pairs@, Set::empty()).0,
        events@ == resolve(old(registry)@, pairs@, Set::empty()).1,
        num_settled(final(registry)@) + events@.len() == num_settled(old(registry)@),
        forall|id: u64|
            #[trigger] has_id(final(registry)@, id) && has_id(old(registry)@, id) && piece_at(
                old(registry)@,
                id,
            ).has_collided ==> piece_at(final(registry)@, id).has_collided,
{
    let ghost s0 = registry@;
    let ghost nid0 = registry.spec_next_id();
    let mut events: Vec<MergeEvent> = Vec::new();
    let mut seen: Vec<(u64, u64)> = Vec::new();
    let ghost seen_set = Set::<(u64, u64)>::empty();
    let n = pairs.len();
    let mut k: usize = 0;
    proof {
        assert(pairs@.skip(0) =~= pairs@);
        assert(events@ + resolve(registry@, pairs@, seen_set).1 =~= resolve(
            registry@,
            pairs@,
            seen_set,
        ).1);
    }
    while k < n
        invariant
            registry.wf(),
            registry.spec_next_id() == nid0,
            n == pairs@.len(),
            k <= n,
            unique_ids(s0),
            at_most_one_preview(s0),
            forall|p: (u64, u64)| #[trigger] seen_set.contains(p) == seen@.contains(p),
            resolve(s0, pairs@, Set::empty()).0 == resolve(
                registry@,
                pairs@.skip(k as int),
                seen_set,
            ).0,
            resolve(s0, pairs@, Set::empty()).1 == events@ + resolve(
                registry@,
                pairs@.skip(k as int),
                seen_set,
            ).1,
        decreases n - k,
    {
        let (a, b) = (pairs[k].0, pairs[k].1);
        let key = if a <= b {
            (a, b)
        } else {
            (b, a)
        };
        let ghost rem = pairs@.skip(k as int);
        proof {
            assert(rem[0] == pairs@[k as int]);
            assert(rem.drop_first() =~= pairs@.skip(k as int + 1));
            assert(key == norm_pair(a, b));
        }
        if contains_pair(&seen, key) {
            assert(seen_set.contains(key));
            assert(resolve(registry@, rem, seen_set) == resolve(
                registry@,
                rem.drop_first(),
                seen_set,
            ));
        } else {
            assert(!seen_set.contains(key));
            let ghost sk = registry@;
            let ghost old_seen = seen_set;
            let ghost events_top = events@;
            let ghost seen_top = seen@;
            let ev = process_pair(registry, a, b);
            proof {
                seen_set = seen_set.insert(key);
            }
            seen.push(key);
            proof {
                assert(seen@ == seen_top.push(key));
                assert forall|p: (u64, u64)| #[trigger] seen_set.contains(p)
                    == seen@.contains(p) by {
                    if p == key {
                        assert(seen@[seen@.len() - 1] == key);
                        assert(seen@.contains(key));
                    } else {
                        assert(old_seen.contains(p) == seen_top.contains(p));
                        if seen_top.contains(p) {
                            let j = choose|j: int| 0 <= j < seen_top.len() && seen_top[j] == p;
                            assert(seen@[j] == p);
                            assert(seen@.contains(p));
                        } else if seen@.contains(p) {
                            let j = choose|j: int| 0 <= j < seen@.len() && seen@[j] == p;
                            assert(j < seen@.len() - 1);
                            assert(seen_top[j] == p);
                            assert(seen_top.contains(p));
                        }
                    }
                }
                let stepped = step_pair(sk, a, b);
                assert(registry@ == stepped.0);
                assert(ev == stepped.1);
                let rest = resolve(registry@, rem.drop_first(), seen_set);
                assert(resolve(sk, rem, old_seen).0 == rest.0);
                assert(resolve(sk, rem, old_seen).1 == (match stepped.1 {
                    Some(e) => seq![e] + rest.1,
                    None => rest.1,
                }));
            }
            match ev {
                Some(e) => {
                    events.push(e);
                    proof {
                        let rest = resolve(registry@, rem.drop_first(), seen_set);
                        assert(events@ == events_top.push(e));
                        assert(events_top + (seq![e] + rest.1) =~= events@ + rest.1);
                    }
                },
                None => {},
            }
        }
        k = k + 1;
    }
    proof {
        assert(pairs@.skip(n as int) =~= Seq::<(u64, u64)>::empty());
        assert(resolve(registry@, pairs@.skip(n as int), seen_set).0 == registry@);
        assert(events@ + resolve(registry@, pairs@.skip(n as int), seen_set).1 =~= events@);
        lemma_resolve_props(s0, pairs@, Set::empty(), nid0);
    }
    events
}

/// Two sequences with equal identifiers at equal indices agree on `has_id`.
proof fn lemma_seq_same_ids_helpers(s: Seq<Piece>, t: Seq<Piece>)
    requires
        s.len() == t.len(),
        forall|i: int| 0 <= i < s.len() ==> s[i].id == t[i].id,
    ensures
        forall|id: u64| #[trigger] has_id(s, id) <==> #[trigger] has_id(t, id),
{
    assert forall|id: u64| #[trigger] has_id(s, id) implies has_id(t, id) by {
        let i = choose|i: int| 0 <= i < s.len() && s[i].id == id;
        assert(t[i].id == id);
    }
    assert forall|id: u64| #[trigger] has_id(t, id) implies has_id(s, id) by {
        let i = choose|i: int| 0 <= i < t.len() && t[i].id == id;
        assert(s[i].id == id);
    }
}

} // verus!
