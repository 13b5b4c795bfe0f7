//! The piece registry: the live collection of piece entities, owner of
//! their whole lifecycle (spawn, promote, mutate, destroy).
//!
//! Every piece carries a process-unique identifier that is never reused, so
//! a contact pair naming an already-destroyed piece is a defined lookup
//! miss. The registry keeps at most one preview piece at any time.

use vstd::prelude::*;
use crate::fruit_type::FruitType;

verus! {

/// The kind of a piece, carried by every live entity.
#[derive(Clone, Copy, Debug, PartialEq, Eq, Structural)]
pub struct Fruit(pub FruitType);

/// A live piece entity: a settled, physics-active piece, or the single
/// preview piece that follows the pointer before it is committed.
#[derive(Clone, Copy, Debug, PartialEq, Eq, Structural)]
pub struct Piece {
    /// Process-unique identifier, never reused.
    pub id: u64,
    /// The piece's kind; its diameter is derived from it, never stored.
    pub fruit: Fruit,
    /// x-coordinate of the piece's centre.
    pub x: i32,
    /// y-coordinate of the piece's centre.
    pub y: i32,
    /// Whether this piece has ever been part of an active contact. Set
    /// once, never cleared while the piece lives.
    pub has_collided: bool,
    /// Whether this piece is the uncommitted preview.
    pub is_preview: bool,
}

/// Why an operation on the registry was refused.
#[derive(Clone, Copy, Debug, PartialEq, Eq, Structural)]
pub enum RegistryError {
    /// A preview spawn was requested while a preview already exists.
    PreviewExists,
    /// The named piece is not in the registry.
    NoSuchPiece,
    /// The named piece is not the current preview.
    NotPreview,
}

/// No two pieces share an identifier.
pub open spec fn unique_ids(s: Seq<Piece>) -> bool {
    forall|i: int, j: int|
        0 <= i < s.len() && 0 <= j < s.len() && i != j ==> s[i].id != s[j].id
}

/// At most one piece is the preview.
pub open spec fn at_most_one_preview(s: Seq<Piece>) -> bool {
    forall|i: int, j: int|
        0 <= i < s.len() && 0 <= j < s.len() && s[i].is_preview && s[j].is_preview ==> i == j
}

/// Every identifier is below the registry's next fresh one.
pub open spec fn ids_below(s: Seq<Piece>, bound: u64) -> bool {
    forall|i: int| 0 <= i < s.len() ==> s[i].id < bound
}

/// Some piece carries the identifier.
pub open spec fn has_id(s: Seq<Piece>, id: u64) -> bool {
    exists|i: int| 0 <= i < s.len() && s[i].id == id
}

/// The index of the piece with the identifier (unique when `unique_ids`).
pub open spec fn idx_of(s: Seq<Piece>, id: u64) -> int {
    choose|i: int| 0 <= i < s.len() && s[i].id == id
}

/// The piece with the identifier.
pub open spec fn piece_at(s: Seq<Piece>, id: u64) -> Piece {
    s[idx_of(s, id)]
}

/// Some piece is the preview.
pub open spec fn has_preview(s: Seq<Piece>) -> bool {
    exists|i: int| 0 <= i < s.len() && s[i].is_preview
}

/// The index of the preview piece (unique when `at_most_one_preview`).
pub open spec fn preview_idx(s: Seq<Piece>) -> int {
    choose|i: int| 0 <= i < s.len() && s[i].is_preview
}

/// The pieces, in insertion order, with every piece of the identifier
/// removed.
pub open spec fn remove_id(s: Seq<Piece>, id: u64) -> Seq<Piece>
    decreases s.len(),
{
    if s.len() == 0 {
        Seq::empty()
    } else if s.last().id == id {
        remove_id(s.drop_last(), id)
    } else {
        remove_id(s.drop_last(), id).push(s.last())
    }
}

/// The settled pieces, in insertion order.
pub open spec fn settled_of(s: Seq<Piece>) -> Seq<Piece>
    decreases s.len(),
{
    if s.len() == 0 {
        Seq::empty()
    } else if s.last().is_preview {
        settled_of(s.drop_last())
    } else {
        settled_of(s.drop_last()).push(s.last())
    }
}

/// How many pieces are settled.
pub open spec fn num_settled(s: Seq<Piece>) -> nat
    decreases s.len(),
{
    if s.len() == 0 {
        0
    } else if s.last().is_preview {
        num_settled(s.drop_last())
    } else {
        num_settled(s.drop_last()) + 1
    }
}

pub proof fn lemma_idx_of_unique(s: Seq<Piece>, id: u64, i: int)
    requires
        unique_ids(s),
        0 <= i < s.len(),
        s[i].id == id,
    ensures
        has_id(s, id),
        idx_of(s, id) == i,
        piece_at(s, id) == s[i],
{
    assert(has_id(s, id));
}

pub proof fn lemma_preview_idx_unique(s: Seq<Piece>, i: int)
    requires
        at_most_one_preview(s),
        0 <= i < s.len(),
        s[i].is_preview,
    ensures
        has_preview(s),
        preview_idx(s) == i,
{
    assert(has_preview(s));
}

pub proof fn lemma_remove_id_absent(s: Seq<Piece>, id: u64)
    requires
        !has_id(s, id),
    ensures
        remove_id(s, id) == s,
    decreases s.len(),
{
    if s.len() == 0 {
        assert(remove_id(s, id) =~= s);
    } else {
        assert(s.last() == s[s.len() - 1]);
        assert(!has_id(s.drop_last(), id)) by {
            assert forall|i: int| 0 <= i < s.drop_last().len() implies s.drop_last()[i].id != id by {
                assert(s.drop_last()[i] == s[i]);
            }
        }
        lemma_remove_id_absent(s.drop_last(), id);
        assert(remove_id(s, id) =~= s);
    }
}

pub proof fn lemma_remove_id_at(s: Seq<Piece>, id: u64, i: int)
    requires
        unique_ids(s),
        0 <= i < s.len(),
        s[i].id == id,
    ensures
        remove_id(s, id) == s.remove(i),
    decreases s.len(),
{
    assert(s.last() == s[s.len() - 1]);
    if i == s.len() - 1 {
        assert(!has_id(s.drop_last(), id)) by {
            assert forall|j: int| 0 <= j < s.drop_last().len() implies s.drop_last()[j].id != id by {
                assert(s.drop_last()[j] == s[j]);
            }
        }
        lemma_remove_id_absent(s.drop_last(), id);
        assert(remove_id(s, id) =~= s.remove(i));
    } else {
        assert(unique_ids(s.drop_last())) by {
            assert forall|p: int, q: int|
                0 <= p < s.drop_last().len() && 0 <= q < s.drop_last().len() && p != q implies s
                .drop_last()[p].id != s.drop_last()[q].id by {
                assert(s.drop_last()[p] == s[p]);
                assert(s.drop_last()[q] == s[q]);
            }
        }
        assert(s.drop_last()[i] == s[i]);
        lemma_remove_id_at(s.drop_last(), id, i);
        assert(s.last().id != id);
        assert(remove_id(s, id) == s.drop_last().remove(i).push(s.last()));
        assert(remove_id(s, id) =~= s.remove(i));
    }
}

/// Updating a piece in place, without changing its identifier and without
/// turning a settled piece into a preview, preserves the registry
/// invariants.
pub proof fn lemma_wf_update(s: Seq<Piece>, i: int, p: Piece, bound: u64)
    requires
        0 <= i < s.len(),
        p.id == s[i].id,
        p.is_preview ==> s[i].is_preview,
    ensures
        unique_ids(s) ==> unique_ids(s.update(i, p)),
        at_most_one_preview(s) ==> at_most_one_preview(s.update(i, p)),
        ids_below(s, bound) ==> ids_below(s.update(i, p), bound),
{
}

/// Removing a piece preserves the registry invariants.
pub proof fn lemma_wf_remove(s: Seq<Piece>, i: int, bound: u64)
    requires
        0 <= i < s.len(),
    ensures
        unique_ids(s) ==> unique_ids(s.remove(i)),
        at_most_one_preview(s) ==> at_most_one_preview(s.remove(i)),
        ids_below(s, bound) ==> ids_below(s.remove(i), bound),
{
    let t = s.remove(i);
    assert forall|p: int, q: int|
        unique_ids(s) && 0 <= p < t.len() && 0 <= q < t.len() && p != q implies t[p].id
        != t[q].id by {
        let p0: int = if p < i {
            p
        } else {
            p + 1
        };
        let q0: int = if q < i {
            q
        } else {
            q + 1
        };
        assert(t[p] == s[p0]);
        assert(t[q] == s[q0]);
    }
    assert forall|p: int, q: int|
        at_most_one_preview(s) && 0 <= p < t.len() && 0 <= q < t.len() && t[p].is_preview
            && t[q].is_preview implies p == q by {
        let p0: int = if p < i {
            p
        } else {
            p + 1
        };
        let q0: int = if q < i {
            q
        } else {
            q + 1
        };
        assert(t[p] == s[p0]);
        assert(t[q] == s[q0]);
    }
    assert forall|p: int| ids_below(s, bound) && 0 <= p < t.len() implies t[p].id < bound by {
        let p0: int = if p < i {
            p
        } else {
            p + 1
        };
        assert(t[p] == s[p0]);
    }
}

pub proof fn lemma_num_settled_eq_len(s: Seq<Piece>)
    ensures
        num_settled(s) == settled_of(s).len(),
    decreases s.len(),
{
    if s.len() > 0 {
        lemma_num_settled_eq_len(s.drop_last());
    }
}

pub proof fn lemma_num_settled_push(s: Seq<Piece>, p: Piece)
    ensures
        num_settled(s.push(p)) == num_settled(s) + (if p.is_preview {
            0int
        } else {
            1int
        }),
{
    assert(s.push(p).drop_last() =~= s);
    assert(s.push(p).last() == p);
}

/// Replacing a piece moves the settled count only by the change of role.
pub proof fn lemma_num_settled_update(s: Seq<Piece>, i: int, p: Piece)
    requires
        0 <= i < s.len(),
    ensures
        num_settled(s.update(i, p)) == num_settled(s) + (if s[i].is_preview && !p.is_preview {
            1int
        } else if !s[i].is_preview && p.is_preview {
            -1int
        } else {
            0int
        }),
    decreases s.len(),
{
    let t = s.update(i, p);
    assert(t.last() == t[t.len() - 1]);
    assert(s.last() == s[s.len() - 1]);
    if i == s.len() - 1 {
        assert(t.drop_last() =~= s.drop_last());
    } else {
        assert(t.drop_last() =~= s.drop_last().update(i, p));
        lemma_num_settled_update(s.drop_last(), i, p);
        assert(s.drop_last()[i] == s[i]);
        assert(t.last() == s.last());
    }
}

/// Removing a settled piece lowers the settled count by one; removing the
/// preview keeps it.
pub proof fn lemma_num_settled_remove(s: Seq<Piece>, i: int)
    requires
        0 <= i < s.len(),
    ensures
        num_settled(s.remove(i)) == num_settled(s) - (if s[i].is_preview {
            0int
        } else {
            1int
        }),
    decreases s.len(),
{
    let t = s.remove(i);
    assert(s.last() == s[s.len() - 1]);
    if i == s.len() - 1 {
        assert(t =~= s.drop_last());
    } else {
        assert(t.last() == t[t.len() - 1]);
        assert(t.last() == s.last());
        assert(t.drop_last() =~= s.drop_last().remove(i));
        lemma_num_settled_remove(s.drop_last(), i);
        assert(s.drop_last()[i] == s[i]);
    }
}

/// The live collection of pieces, keyed by never-reused identifiers.
pub struct PieceRegistry {
    pieces: Vec<Piece>,
    next_id: u64,
}

impl View for PieceRegistry {
    type V = Seq<Piece>;

    closed spec fn view(&self) -> Seq<Piece> {
        self.pieces@
    }
}

impl PieceRegistry {
    /// The identifier the next spawned piece will get.
    pub closed spec fn spec_next_id(&self) -> u64 {
        self.next_id
    }

    /// The registry invariants: identifiers are unique and below the next
    /// fresh one, and at most one piece is the preview.
    pub open spec fn wf(&self) -> bool {
        &&& unique_ids(self@)
        &&& at_most_one_preview(self@)
        &&& ids_below(self@, self.spec_next_id())
    }

    pub fn new() -> (r: PieceRegistry)
        ensures
            r.wf(),
            r@ == Seq::<Piece>::empty(),
            r.spec_next_id() == 0,
    {
        PieceRegistry { pieces: Vec::new(), next_id: 0 }
    }

    pub fn len(&self) -> (r: usize)
        ensures
            r == self@.len(),
    {
        self.pieces.len()
    }

    /// The identifier the next spawned piece will get.
    pub fn peek_next_id(&self) -> (r: u64)
        ensures
            r == self.spec_next_id(),
    {
        self.next_id
    }

    pub fn get(&self, i: usize) -> (r: &Piece)
        requires
            i < self@.len(),
        ensures
            *r == self@[i as int],
    {
        &self.pieces[i]
    }

    /// The index of the piece with the identifier, if it is live.
    pub fn find_index(&self, id: u64) -> (r: Option<usize>)
        ensures
            match r {
                Some(i) => i < self@.len() && self@[i as int].id == id,
                None => !has_id(self@, id),
            },
    {
        let n = self.pieces.len();
        let mut i: usize = 0;
        while i < n
            invariant
                n == self@.len(),
                i <= n,
                forall|j: int| 0 <= j < i ==> self@[j].id != id,
            decreases n - i,
        {
            if self.pieces[i].id == id {
                return Some(i);
            }
            i = i + 1;
        }
        None
    }

    /// The index of the preview piece, if one exists.
    pub fn preview_index(&self) -> (r: Option<usize>)
        ensures
            match r {
                Some(i) => i < self@.len() && self@[i as int].is_preview,
                None => !has_preview(self@),
            },
    {
        let n = self.pieces.len();
        let mut i: usize = 0;
        while i < n
            invariant
                n == self@.len(),
                i <= n,
                forall|j: int| 0 <= j < i ==> !self@[j].is_preview,
            decreases n - i,
        {
            if self.pieces[i].is_preview {
                return Some(i);
            }
            i = i + 1;
        }
        None
    }

    /// Creates a new piece and returns its identifier. A preview spawn is
    /// refused, with the registry unchanged, while a preview already
    /// exists.
    pub fn spawn(&mut self, tier: FruitType, x: i32, y: i32, preview: bool) -> (r: Result<
        u64,
        RegistryError,
    >)
        requires
            old(self).wf(),
            old(self).spec_next_id() < u64::MAX,
        ensures
            final(self).wf(),
            match r {
                Ok(id) => {
                    &&& id == old(self).spec_next_id()
                    &&& final(self)@ == old(self)@.push(
                        (Piece {
                            id,
                            fruit: Fruit(tier),
                            x,
                            y,
                            has_collided: false,
                            is_preview: preview,
                        }),
                    )
                    &&& final(self).spec_next_id() == old(self).spec_next_id() + 1
                    &&& (preview ==> !has_preview(old(self)@))
                },
                Err(e) => {
                    &&& e == RegistryError::PreviewExists
                    &&& preview
                    &&& has_preview(old(self)@)
                    &&& final(self)@ == old(self)@
                    &&& final(self).spec_next_id() == old(self).spec_next_id()
                },
            },
    {
        if preview {
            if self.preview_index().is_some() {
                return Err(RegistryError::PreviewExists);
            }
        }
        let id = self.next_id;
        let piece = Piece { id, fruit: Fruit(tier), x, y, has_collided: false, is_preview: preview };
        self.next_id = id + 1;
        self.pieces.push(piece);
        proof {
            let s0 = old(self)@;
            let s1 = self@;
            assert forall|i: int, j: int|
                0 <= i < s1.len() && 0 <= j < s1.len() && i != j implies s1[i].id != s1[j].id by {
                if i < s0.len() && j < s0.len() {
                    assert(s1[i] == s0[i] && s1[j] == s0[j]);
                } else if i < s0.len() {
                    assert(s0[i].id < id);
                } else {
                    assert(s0[j].id < id);
                }
            }
            assert forall|i: int, j: int|
                0 <= i < s1.len() && 0 <= j < s1.len() && s1[i].is_preview
                    && s1[j].is_preview implies i == j by {
                if preview {
                    assert(forall|k: int| 0 <= k < s0.len() ==> !s0[k].is_preview);
                } else {
                    assert(!s1[s0.len() as int].is_preview);
                }
            }
            assert forall|i: int| 0 <= i < s1.len() implies s1[i].id < self.spec_next_id() by {
                if i < s0.len() {
                    assert(s1[i] == s0[i]);
                }
            }
        }
        Ok(id)
    }

    /// Converts the current preview into a settled piece at the commit
    /// position. Fails, with the registry unchanged, if the identifier is
    /// dead or names a settled piece.
    pub fn promote_preview_to_settled(&mut self, id: u64, x: i32, y: i32) -> (r: Result<
        (),
        RegistryError,
    >)
        requires
            old(self).wf(),
        ensures
            final(self).wf(),
            final(self).spec_next_id() == old(self).spec_next_id(),
            match r {
                Ok(_) => {
                    &&& has_id(old(self)@, id)
                    &&& piece_at(old(self)@, id).is_preview
                    &&& final(self)@ == old(self)@.update(
                        idx_of(old(self)@, id),
                        (Piece { x, y, is_preview: false, ..piece_at(old(self)@, id) }),
                    )
                },
                Err(RegistryError::NoSuchPiece) => !has_id(old(self)@, id) && final(self)@ == old(
                    self,
                )@,
                Err(RegistryError::NotPreview) => has_id(old(self)@, id) && !piece_at(
                    old(self)@,
                    id,
                ).is_preview && final(self)@ == old(self)@,
                Err(RegistryError::PreviewExists) => false,
            },
    {
        match self.find_index(id) {
            None => Err(RegistryError::NoSuchPiece),
            Some(i) => {
                proof {
                    lemma_idx_of_unique(self@, id, i as int);
                }
                let p = *self.get(i);
                if !p.is_preview {
                    return Err(RegistryError::NotPreview);
                }
                let updated = Piece { x, y, is_preview: false, ..p };
                proof {
                    lemma_wf_update(self@, i as int, updated, self.spec_next_id());
                }
                self.pieces[i] = updated;
                Ok(())
            },
        }
    }

    /// Changes the kind of a live piece in place; the diameter follows the
    /// kind, so both stay consistent. Returns whether the piece was live.
    pub fn mutate_tier(&mut self, id: u64, new_tier: FruitType) -> (r: bool)
        requires
            old(self).wf(),
        ensures
            final(self).wf(),
            final(self).spec_next_id() == old(self).spec_next_id(),
            r == has_id(old(self)@, id),
            r ==> final(self)@ == old(self)@.update(
                idx_of(old(self)@, id),
                (Piece { fruit: Fruit(new_tier), ..piece_at(old(self)@, id) }),
            ),
            !r ==> final(self)@ == old(self)@,
    {
        match self.find_index(id) {
            None => false,
            Some(i) => {
                proof {
                    lemma_idx_of_unique(self@, id, i as int);
                }
                let p = *self.get(i);
                let updated = Piece { fruit: Fruit(new_tier), ..p };
                proof {
                    lemma_wf_update(self@, i as int, updated, self.spec_next_id());
                }
                self.pieces[i] = updated;
                true
            },
        }
    }

    /// Moves a live piece horizontally. Returns whether the piece was live.
    pub fn set_x(&mut self, id: u64, x: i32) -> (r: bool)
        requires
            old(self).wf(),
        ensures
            final(self).wf(),
            final(self).spec_next_id() == old(self).spec_next_id(),
            r == has_id(old(self)@, id),
            r ==> final(self)@ == old(self)@.update(
                idx_of(old(self)@, id),
                (Piece { x, ..piece_at(old(self)@, id) }),
            ),
            !r ==> final(self)@ == old(self)@,
    {
        match self.find_index(id) {
            None => false,
            Some(i) => {
                proof {
                    lemma_idx_of_unique(self@, id, i as int);
                }
                let p = *self.get(i);
                let updated = Piece { x, ..p };
                proof {
                    lemma_wf_update(self@, i as int, updated, self.spec_next_id());
                }
                self.pieces[i] = updated;
                true
            },
        }
    }

    /// Flags a live piece as having touched another. Idempotent; the flag
    /// is never cleared. Returns whether the piece was live.
    pub fn mark_collided(&mut self, id: u64) -> (r: bool)
        requires
            old(self).wf(),
        ensures
            final(self).wf(),
            final(self).spec_next_id() == old(self).spec_next_id(),
            r == has_id(old(self)@, id),
            r ==> final(self)@ == old(self)@.update(
                idx_of(old(self)@, id),
                (Piece { has_collided: true, ..piece_at(old(self)@, id) }),
            ),
            !r ==> final(self)@ == old(self)@,
    {
        match self.find_index(id) {
            None => false,
            Some(i) => {
                proof {
                    lemma_idx_of_unique(self@, id, i as int);
                }
                let p = *self.get(i);
                let updated = Piece { has_collided: true, ..p };
                proof {
                    lemma_wf_update(self@, i as int, updated, self.spec_next_id());
                }
                self.pieces[i] = updated;
                true
            },
        }
    }

    /// Removes a piece. A dead identifier is a no-op. Returns whether the
    /// piece was live.
    pub fn destroy(&mut self, id: u64) -> (r: bool)
        requires
            old(self).wf(),
        ensures
            final(self).wf(),
            final(self).spec_next_id() == old(self).spec_next_id(),
            r == has_id(old(self)@, id),
            final(self)@ == remove_id(old(self)@, id),
    {
        match self.find_index(id) {
            None => {
                proof {
                    lemma_remove_id_absent(self@, id);
                }
                false
            },
            Some(i) => {
                proof {
                    lemma_idx_of_unique(self@, id, i as int);
                    lemma_remove_id_at(self@, id, i as int);
                    lemma_wf_remove(self@, i as int, self.spec_next_id());
                }
                self.pieces.remove(i);
                true
            },
        }
    }

    /// Removes every piece. Identifiers are not reused afterwards.
    pub fn clear(&mut self)
        ensures
            final(self).wf(),
            final(self)@ == Seq::<Piece>::empty(),
            final(self).spec_next_id() == old(self).spec_next_id(),
    {
        self.pieces.clear();
    }

    /// How many settled pieces are live.
    pub fn settled_count(&self) -> (r: usize)
        ensures
            r == num_settled(self@),
    {
        let n = self.pieces.len();
        let mut count: usize = 0;
        let mut i: usize = 0;
        proof {
            assert(self@.take(0) =~= Seq::<Piece>::empty());
        }
        while i < n
            invariant
                n == self@.len(),
                i <= n,
                count == num_settled(self@.take(i as int)),
                count <= i,
            decreases n - i,
        {
            proof {
                assert(self@.take(i + 1).drop_last() =~= self@.take(i as int));
                assert(self@.take(i + 1).last() == self@[i as int]);
            }
            if !self.pieces[i].is_preview {
                count = count + 1;
            }
            i = i + 1;
        }
        proof {
            assert(self@.take(n as int) =~= self@);
        }
        count
    }

    /// The settled pieces, in insertion order. The order carries no
    /// meaning; it is only stable.
    pub fn iter_settled(&self) -> (r: Vec<Piece>)
        ensures
            r@ == settled_of(self@),
            r@.len() == num_settled(self@),
    {
        proof {
            lemma_num_settled_eq_len(self@);
        }
        let n = self.pieces.len();
        let mut out: Vec<Piece> = Vec::new();
        let mut i: usize = 0;
        proof {
            assert(self@.take(0) =~= Seq::<Piece>::empty());
        }
        while i < n
            invariant
                n == self@.len(),
                i <= n,
                out@ == settled_of(self@.take(i as int)),
            decreases n - i,
        {
            proof {
                assert(self@.take(i + 1).drop_last() =~= self@.take(i as int));
                assert(self@.take(i + 1).last() == self@[i as int]);
            }
            let p = *self.get(i);
            if !p.is_preview {
                out.push(p);
            }
            i = i + 1;
        }
        proof {
            assert(self@.take(n as int) =~= self@);
        }
        out
    }
}

} // verus!
