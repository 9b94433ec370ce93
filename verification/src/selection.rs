//! The set of committed selections plus per-edit undo and redo stacks.
//!
//! Every edit records the operation that puts the set back as it was, and
//! applying a recorded operation yields its own inverse — one engine drives
//! both undo and redo.
//!
//! The coverage questions (which selection a point lands in) depend on each
//! selection's rotation, which is trigonometry; the caller answers them per
//! selection and passes the answers in, and everything decided from them is
//! verified here.

use vstd::prelude::*;
use crate::arith::fits_i32;
use crate::geometry::{normalize_deg, Line, Rect, ResizeHandle, Shape, ShapeView};

verus! {

/// What a mouse-press on the overlay grabs.
#[derive(Debug, Clone, Copy, PartialEq, Eq, Structural)]
pub enum GrabKind {
    /// Inside a shape: drag moves it.
    Move,
    /// On a shape's border: drag resizes it.
    Resize(ResizeHandle),
}

#[derive(Debug, Clone, PartialEq, Eq)]
pub struct Selection {
    pub shape: Shape,
    pub label: String,
    /// Index into the session's monitor list.
    pub monitor: usize,
    /// Rotation in degrees (`0..360`) about the shape's bbox center.
    pub rot_deg: i32,
}

pub struct SelectionView {
    pub shape: ShapeView,
    pub label: Seq<char>,
    pub monitor: usize,
    pub rot_deg: i32,
}

impl View for Selection {
    type V = SelectionView;

    open spec fn view(&self) -> SelectionView {
        SelectionView {
            shape: self.shape@,
            label: self.label@,
            monitor: self.monitor,
            rot_deg: self.rot_deg,
        }
    }
}

impl Selection {
    /// An unlabeled, unrotated selection.
    pub fn new(shape: Shape, monitor: usize) -> (s: Self)
        ensures
            s.shape == shape,
            s.label@ == Seq::<char>::empty(),
            s.monitor == monitor,
            s.rot_deg == 0,
    {
        Selection { shape, label: String::new(), monitor, rot_deg: 0 }
    }

    /// A copy equal to this selection as a value.
    pub fn duplicate(&self) -> (c: Self)
        ensures
            c@ == self@,
    {
        Selection {
            shape: self.shape.clone_shape(),
            label: self.label.clone(),
            monitor: self.monitor,
            rot_deg: self.rot_deg,
        }
    }
}

/// A two-point measurement on one monitor: a ruler laid on the frozen
/// image, labeled like a selection but kept apart from them, since it has
/// no interior to crop or click.
#[derive(Debug, Clone, PartialEq, Eq)]
pub struct Measure {
    pub line: Line,
    pub label: String,
    /// Index into the session's monitor list.
    pub monitor: usize,
}

impl Measure {
    /// An unlabeled measure.
    pub fn new(line: Line, monitor: usize) -> (m: Self)
        ensures
            m.line == line,
            m.label@ == Seq::<char>::empty(),
            m.monitor == monitor,
    {
        Measure { line, label: String::new(), monitor }
    }
}

/// State-restoring operations. Applying one yields its own inverse.
enum UndoOp {
    RemoveLast,
    Restack { from: usize, to: usize },
    RemoveAt { index: usize },
    Reinsert { index: usize, selection: Selection },
    RestoreShape { index: usize, shape: Shape },
    RestoreLabel { index: usize, label: String },
    RestoreRotation { index: usize, deg: i32 },
}

/// The value of a recorded operation.
pub enum OpView {
    RemoveLast,
    Restack { from: usize, to: usize },
    RemoveAt { index: usize },
    Reinsert { index: usize, selection: SelectionView },
    RestoreShape { index: usize, shape: ShapeView },
    RestoreLabel { index: usize, label: Seq<char> },
    RestoreRotation { index: usize, deg: i32 },
}

impl View for UndoOp {
    type V = OpView;

    closed spec fn view(&self) -> OpView {
        match self {
            UndoOp::RemoveLast => OpView::RemoveLast,
            UndoOp::Restack { from, to } => OpView::Restack { from: *from, to: *to },
            UndoOp::RemoveAt { index } => OpView::RemoveAt { index: *index },
            UndoOp::Reinsert { index, selection } => OpView::Reinsert {
                index: *index,
                selection: selection@,
            },
            UndoOp::RestoreShape { index, shape } => OpView::RestoreShape {
                index: *index,
                shape: shape@,
            },
            UndoOp::RestoreLabel { index, label } => OpView::RestoreLabel {
                index: *index,
                label: label@,
            },
            UndoOp::RestoreRotation { index, deg } => OpView::RestoreRotation {
                index: *index,
                deg: *deg,
            },
        }
    }
}

spec fn opt_op_view(o: Option<UndoOp>) -> Option<OpView> {
    match o {
        Some(op) => Some(op@),
        None => None,
    }
}

/// A recorded operation as the stacks hold it.
pub struct UndoOpBox {
    op: UndoOp,
}

pub struct SelectionSet {
    items: Vec<Selection>,
    undo: Vec<UndoOpBox>,
    redo: Vec<UndoOpBox>,
}

/// The value of a selection set: its selections in stacking order (last
/// is topmost) and both history stacks (last is most recent).
pub struct SetView {
    pub items: Seq<SelectionView>,
    pub undo: Seq<OpView>,
    pub redo: Seq<OpView>,
}

impl View for SelectionSet {
    type V = SetView;

    closed spec fn view(&self) -> SetView {
        SetView {
            items: self.items@.map_values(|s: Selection| s@),
            undo: self.undo@.map_values(|o: UndoOpBox| o.op@),
            redo: self.redo@.map_values(|o: UndoOpBox| o.op@),
        }
    }
}

pub open spec fn with_shape(s: SelectionView, shape: ShapeView) -> SelectionView {
    SelectionView { shape, ..s }
}

pub open spec fn with_label(s: SelectionView, label: Seq<char>) -> SelectionView {
    SelectionView { label, ..s }
}

pub open spec fn with_rotation(s: SelectionView, deg: i32) -> SelectionView {
    SelectionView { rot_deg: deg, ..s }
}

/// What applying a recorded operation does to the selections, and the
/// operation that undoes it (`None` when it could not apply).
pub open spec fn apply_spec(items: Seq<SelectionView>, op: OpView) -> (Seq<SelectionView>, Option<OpView>) {
    match op {
        OpView::Restack { from, to } => if from >= items.len() {
            (items, None)
        } else {
            let rest = items.remove(from as int);
            let t = if to as int <= rest.len() { to } else { rest.len() as usize };
            (rest.insert(t as int, items[from as int]), Some(OpView::Restack { from: t, to: from }))
        },
        OpView::RemoveLast => if items.len() == 0 {
            (items, None)
        } else {
            (
                items.drop_last(),
                Some(OpView::Reinsert { index: (items.len() - 1) as usize, selection: items.last() }),
            )
        },
        OpView::RemoveAt { index } => if index >= items.len() {
            (items, None)
        } else {
            (items.remove(index as int), Some(OpView::Reinsert { index, selection: items[index as int] }))
        },
        OpView::Reinsert { index, selection } => {
            let i = if index as int <= items.len() { index } else { items.len() as usize };
            (items.insert(i as int, selection), Some(OpView::RemoveAt { index: i }))
        },
        OpView::RestoreShape { index, shape } => if index >= items.len() {
            (items, None)
        } else {
            (
                items.update(index as int, with_shape(items[index as int], shape)),
                Some(OpView::RestoreShape { index, shape: items[index as int].shape }),
            )
        },
        OpView::RestoreLabel { index, label } => if index >= items.len() {
            (items, None)
        } else {
            (
                items.update(index as int, with_label(items[index as int], label)),
                Some(OpView::RestoreLabel { index, label: items[index as int].label }),
            )
        },
        OpView::RestoreRotation { index, deg } => if index >= items.len() {
            (items, None)
        } else {
            (
                items.update(index as int, with_rotation(items[index as int], deg)),
                Some(OpView::RestoreRotation { index, deg: items[index as int].rot_deg }),
            )
        },
    }
}

/// Undo: apply the most recent recorded operation and move its inverse to
/// the redo stack. The flag says whether there was anything to undo.
pub open spec fn undo_spec(st: SetView) -> (SetView, bool) {
    if st.undo.len() == 0 {
        (st, false)
    } else {
        let (items, inv) = apply_spec(st.items, st.undo.last());
        (
            SetView {
                items,
                undo: st.undo.drop_last(),
                redo: match inv {
                    Some(i) => st.redo.push(i),
                    None => st.redo,
                },
            },
            true,
        )
    }
}

/// Redo: the mirror image of [`undo_spec`].
pub open spec fn redo_spec(st: SetView) -> (SetView, bool) {
    if st.redo.len() == 0 {
        (st, false)
    } else {
        let (items, inv) = apply_spec(st.items, st.redo.last());
        (
            SetView {
                items,
                redo: st.redo.drop_last(),
                undo: match inv {
                    Some(i) => st.undo.push(i),
                    None => st.undo,
                },
            },
            true,
        )
    }
}

/// The most recent recorded operation applies and puts the selections back
/// to `before`.
pub open spec fn last_undo_restores(st: SetView, before: Seq<SelectionView>) -> bool {
    &&& st.undo.len() > 0
    &&& apply_spec(st.items, st.undo.last()).0 == before
    &&& apply_spec(st.items, st.undo.last()).1 is Some
}

/// Undoing every recorded operation of `undo`, most recent first, takes
/// `items` back to `v`, each operation applying on the way.
pub open spec fn rewinds(items: Seq<SelectionView>, undo: Seq<OpView>, v: Seq<SelectionView>) -> bool
    decreases undo.len(),
{
    &&& items.len() <= usize::MAX
    &&& if undo.len() == 0 {
        items == v
    } else {
        let (prev, inv) = apply_spec(items, undo.last());
        inv is Some && rewinds(prev, undo.drop_last(), v)
    }
}

/// Redoing every operation of `redo`, most recent first, takes `items` to
/// `v`.
pub open spec fn replays(items: Seq<SelectionView>, redo: Seq<OpView>, v: Seq<SelectionView>) -> bool
    decreases redo.len(),
{
    if redo.len() == 0 {
        items == v
    } else {
        replays(apply_spec(items, redo.last()).0, redo.drop_last(), v)
    }
}

/// The state after `n` calls of undo.
pub open spec fn undo_n(st: SetView, n: nat) -> SetView
    decreases n,
{
    if n == 0 {
        st
    } else {
        undo_n(undo_spec(st).0, (n - 1) as nat)
    }
}

/// The state after `n` calls of redo.
pub open spec fn redo_n(st: SetView, n: nat) -> SetView
    decreases n,
{
    if n == 0 {
        st
    } else {
        redo_n(redo_spec(st).0, (n - 1) as nat)
    }
}

/// Selection `i` is on `monitor` and the caller reports it covering the point.
pub open spec fn hit_here(items: Seq<SelectionView>, monitor: usize, covered: Seq<bool>, i: int) -> bool {
    items[i].monitor == monitor && covered[i]
}

/// The topmost (latest) selection on `monitor` that the caller reports as
/// covering the point.
pub open spec fn is_topmost_hit(items: Seq<SelectionView>, monitor: usize, covered: Seq<bool>, i: int) -> bool {
    &&& 0 <= i < items.len()
    &&& hit_here(items, monitor, covered, i)
    &&& forall|j: int| i < j < items.len() ==> !#[trigger] hit_here(items, monitor, covered, j)
}

/// The lowest (earliest) selection on `monitor` covering the point.
pub open spec fn lowest_hit(items: Seq<SelectionView>, monitor: usize, covered: Seq<bool>, i: int) -> bool {
    &&& 0 <= i < items.len()
    &&& hit_here(items, monitor, covered, i)
    &&& forall|j: int| 0 <= j < i ==> !#[trigger] hit_here(items, monitor, covered, j)
}

pub open spec fn no_hit(items: Seq<SelectionView>, monitor: usize, covered: Seq<bool>) -> bool {
    forall|j: int| 0 <= j < items.len() ==> !#[trigger] hit_here(items, monitor, covered, j)
}

/// Selection `i` on `monitor` offers a grab: its border grip first, then
/// its interior.
pub open spec fn grab_at(
    items: Seq<SelectionView>,
    monitor: usize,
    grips: Seq<Option<ResizeHandle>>,
    covered: Seq<bool>,
    i: int,
) -> bool {
    items[i].monitor == monitor && (grips[i] is Some || covered[i])
}

proof fn lemma_view_push(items: Seq<Selection>, s: Selection)
    ensures
        items.push(s).map_values(|x: Selection| x@) == items.map_values(|x: Selection| x@).push(s@),
{
    assert(items.push(s).map_values(|x: Selection| x@) =~= items.map_values(|x: Selection| x@).push(
        s@,
    ));
}

proof fn lemma_ops_push(ops: Seq<UndoOpBox>, o: UndoOpBox)
    ensures
        ops.push(o).map_values(|x: UndoOpBox| x.op@) == ops.map_values(|x: UndoOpBox| x.op@).push(
            o.op@,
        ),
{
    assert(ops.push(o).map_values(|x: UndoOpBox| x.op@) =~= ops.map_values(
        |x: UndoOpBox| x.op@,
    ).push(o.op@));
}

proof fn lemma_ops_drop_last(ops: Seq<UndoOpBox>)
    requires
        ops.len() > 0,
    ensures
        ops.drop_last().map_values(|x: UndoOpBox| x.op@) == ops.map_values(
            |x: UndoOpBox| x.op@,
        ).drop_last(),
{
    assert(ops.drop_last().map_values(|x: UndoOpBox| x.op@) =~= ops.map_values(
        |x: UndoOpBox| x.op@,
    ).drop_last());
}

impl SelectionSet {
    /// An empty set with no history.
    pub fn new() -> (s: Self)
        ensures
            s@.items.len() == 0,
            s@.undo.len() == 0,
            s@.redo.len() == 0,
    {
        let s = SelectionSet { items: Vec::new(), undo: Vec::new(), redo: Vec::new() };
        assert(s@.items =~= Seq::<SelectionView>::empty());
        assert(s@.undo =~= Seq::<OpView>::empty());
        assert(s@.redo =~= Seq::<OpView>::empty());
        s
    }

    /// A set pre-populated with existing selections — restoring a saved
    /// session. Seeding is not an edit: no history is created, so undo in
    /// a resumed session stops at the resume point.
    pub fn seed(items: Vec<Selection>) -> (s: Self)
        ensures
            s@.items == items@.map_values(|x: Selection| x@),
            s@.undo.len() == 0,
            s@.redo.len() == 0,
    {
        let s = SelectionSet { items, undo: Vec::new(), redo: Vec::new() };
        assert(s@.undo =~= Seq::<OpView>::empty());
        assert(s@.redo =~= Seq::<OpView>::empty());
        s
    }

    pub fn items(&self) -> (r: &Vec<Selection>)
        ensures
            r@.map_values(|x: Selection| x@) == self@.items,
    {
        &self.items
    }

    pub fn len(&self) -> (n: usize)
        ensures
            n == self@.items.len(),
    {
        self.items.len()
    }

    pub fn is_empty(&self) -> (b: bool)
        ensures
            b == (self@.items.len() == 0),
    {
        self.items.len() == 0
    }

    pub fn get(&self, index: usize) -> (r: Option<&Selection>)
        ensures
            match r {
                Some(s) => index < self@.items.len() && s@ == self@.items[index as int],
                None => index >= self@.items.len(),
            },
    {
        if index < self.items.len() {
            Some(&self.items[index])
        } else {
            None
        }
    }

    /// The topmost selection on `monitor` covering the point, most recent
    /// first. `covered[i]` says whether selection `i`, at its rotation,
    /// covers the point.
    pub fn hit_topmost(&self, monitor: usize, covered: &Vec<bool>) -> (r: Option<usize>)
        requires
            covered@.len() == self@.items.len(),
        ensures
            match r {
                Some(i) => is_topmost_hit(self@.items, monitor, covered@, i as int),
                None => no_hit(self@.items, monitor, covered@),
            },
    {
        let mut i = self.items.len();
        while i > 0
            invariant
                i <= self.items@.len(),
                covered@.len() == self.items@.len(),
                self@.items == self.items@.map_values(|x: Selection| x@),
                forall|j: int| i <= j < self@.items.len() ==> !#[trigger] hit_here(self@.items, monitor, covered@, j),
            decreases i,
        {
            i = i - 1;
            if self.items[i].monitor == monitor && covered[i] {
                return Some(i);
            }
        }
        None
    }

    /// What a press grabs, topmost selection first: a border grip resizes,
    /// an interior moves. `grips[i]` and `covered[i]` are selection `i`'s
    /// answers at its rotation.
    pub fn grab_topmost(
        &self,
        monitor: usize,
        grips: &Vec<Option<ResizeHandle>>,
        covered: &Vec<bool>,
    ) -> (r: Option<(usize, GrabKind)>)
        requires
            grips@.len() == self@.items.len(),
            covered@.len() == self@.items.len(),
        ensures
            match r {
                Some((i, kind)) => {
                    &&& i < self@.items.len()
                    &&& grab_at(self@.items, monitor, grips@, covered@, i as int)
                    &&& kind == match grips@[i as int] {
                        Some(h) => GrabKind::Resize(h),
                        None => GrabKind::Move,
                    }
                    &&& forall|j: int|
                        i < j < self@.items.len() ==> !#[trigger] grab_at(
                            self@.items,
                            monitor,
                            grips@,
                            covered@,
                            j,
                        )
                },
                None => forall|j: int|
                    0 <= j < self@.items.len() ==> !#[trigger] grab_at(
                        self@.items,
                        monitor,
                        grips@,
                        covered@,
                        j,
                    ),
            },
    {
        let mut i = self.items.len();
        while i > 0
            invariant
                i <= self.items@.len(),
                covered@.len() == self.items@.len(),
                grips@.len() == self.items@.len(),
                self@.items == self.items@.map_values(|x: Selection| x@),
                forall|j: int|
                    i <= j < self@.items.len() ==> !#[trigger] grab_at(
                        self@.items,
                        monitor,
                        grips@,
                        covered@,
                        j,
                    ),
            decreases i,
        {
            i = i - 1;
            if self.items[i].monitor == monitor {
                if let Some(h) = grips[i] {
                    return Some((i, GrabKind::Resize(h)));
                }
                if covered[i] {
                    return Some((i, GrabKind::Move));
                }
            }
        }
        None
    }

    proof fn lemma_view_update(items: Seq<Selection>, i: int, s: Selection)
        requires
            0 <= i < items.len(),
        ensures
            items.update(i, s).map_values(|x: Selection| x@) == items.map_values(
                |x: Selection| x@,
            ).update(i, s@),
    {
        assert(items.update(i, s).map_values(|x: Selection| x@) =~= items.map_values(
            |x: Selection| x@,
        ).update(i, s@));
    }

    /// Take selection `index` out, leaving a placeholder in its slot.
    fn take_at(&mut self, index: usize) -> (s: Selection)
        requires
            index < old(self).items@.len(),
        ensures
            s == old(self).items@[index as int],
            final(self).items@ == old(self).items@.update(index as int, final(self).items@[index as int]),
            final(self).undo == old(self).undo,
            final(self).redo == old(self).redo,
    {
        let mut s = Selection::new(Shape::Rect(Rect::new(0, 0, 0, 0)), 0);
        self.items.set_and_swap(index, &mut s);
        s
    }

    /// Rotate a selection by `delta` degrees about its bbox center. Circles
    /// have no orientation and a zero delta changes nothing; both return
    /// `None`, as does an index past the end. Otherwise the new rotation,
    /// normalized into `0..360`, is returned and the edit recorded.
    pub fn rotate(&mut self, index: usize, delta: i32) -> (r: Option<i32>)
        requires
            index < old(self)@.items.len() ==> fits_i32(
                old(self)@.items[index as int].rot_deg + delta,
            ),
        ensures
            match r {
                None => *final(self) == *old(self) && (index >= old(self)@.items.len()
                    || delta == 0 || old(self)@.items[index as int].shape is Circle),
                Some(deg) => {
                    &&& index < old(self)@.items.len()
                    &&& delta != 0 && !(old(self)@.items[index as int].shape is Circle)
                    &&& deg == (old(self)@.items[index as int].rot_deg + delta) % 360
                    &&& final(self)@.items == old(self)@.items.update(
                        index as int,
                        with_rotation(old(self)@.items[index as int], deg),
                    )
                    &&& final(self)@.undo == old(self)@.undo.push(
                        OpView::RestoreRotation {
                            index,
                            deg: old(self)@.items[index as int].rot_deg,
                        },
                    )
                    &&& final(self)@.redo.len() == 0
                    &&& last_undo_restores(final(self)@, old(self)@.items)
                },
            },
    {
        if index >= self.items.len() {
            return None;
        }
        if delta == 0 {
            return None;
        }
        if let Shape::Circle { .. } = self.items[index].shape {
            return None;
        }
        let ghost before = self@;
        let ghost old_items = self.items@;
        let mut s = self.take_at(index);
        let previous = s.rot_deg;
        s.rot_deg = normalize_deg(s.rot_deg + delta);
        let deg = s.rot_deg;
        self.items.set(index, s);
        proof {
            assert(self.items@ =~= old_items.update(index as int, s));
            Self::lemma_view_update(old_items, index as int, s);
        }
        proof {
            lemma_ops_push(self.undo@, UndoOpBox { op: UndoOp::RestoreRotation { index, deg: previous } });
        }
        self.undo.push(UndoOpBox { op: UndoOp::RestoreRotation { index, deg: previous } });
        self.redo.clear();
        proof {
            assert(self@.redo =~= Seq::<OpView>::empty());
            assert(self@.items == before.items.update(index as int, with_rotation(before.items[index as int], deg)));
            assert(apply_spec(self@.items, self@.undo.last()).0 =~= before.items);
        }
        Some(deg)
    }

    /// Add a selection on top of the stack.
    pub fn add(&mut self, selection: Selection)
        ensures
            final(self)@.items == old(self)@.items.push(selection@),
            final(self)@.undo == old(self)@.undo.push(OpView::RemoveLast),
            final(self)@.redo.len() == 0,
            last_undo_restores(final(self)@, old(self)@.items),
    {
        let ghost before = self@;
        proof {
            lemma_view_push(self.items@, selection);
            lemma_ops_push(self.undo@, UndoOpBox { op: UndoOp::RemoveLast });
        }
        self.items.push(selection);
        self.undo.push(UndoOpBox { op: UndoOp::RemoveLast });
        self.redo.clear();
        proof {
            assert(self@.redo =~= Seq::<OpView>::empty());
            assert(self@.items.drop_last() =~= before.items);
        }
    }

    /// Delete selection `index`; `false` (and no change) when out of range.
    pub fn delete(&mut self, index: usize) -> (b: bool)
        ensures
            b == (index < old(self)@.items.len()),
            !b ==> *final(self) == *old(self),
            b ==> final(self)@.items == old(self)@.items.remove(index as int),
            b ==> final(self)@.undo == old(self)@.undo.push(
                OpView::Reinsert { index, selection: old(self)@.items[index as int] },
            ),
            b ==> final(self)@.redo.len() == 0,
            b ==> last_undo_restores(final(self)@, old(self)@.items),
    {
        if index >= self.items.len() {
            return false;
        }
        let ghost before = self@;
        let selection = self.items.remove(index);
        proof {
            assert(self@.items =~= before.items.remove(index as int));
            lemma_ops_push(self.undo@, UndoOpBox { op: UndoOp::Reinsert { index, selection } });
        }
        self.undo.push(UndoOpBox { op: UndoOp::Reinsert { index, selection } });
        self.redo.clear();
        proof {
            assert(self@.redo =~= Seq::<OpView>::empty());
            assert(self@.items.insert(index as int, before.items[index as int]) =~= before.items);
        }
        true
    }

    /// Update a shape mid-drag without recording history; pair with
    /// `commit_move` when the drag ends. Out of range does nothing.
    pub fn set_shape_live(&mut self, index: usize, shape: Shape)
        ensures
            index < old(self)@.items.len() ==> final(self)@.items == old(self)@.items.update(
                index as int,
                with_shape(old(self)@.items[index as int], shape@),
            ),
            index >= old(self)@.items.len() ==> final(self)@.items == old(self)@.items,
            final(self)@.undo == old(self)@.undo,
            final(self)@.redo == old(self)@.redo,
    {
        if index < self.items.len() {
            let ghost old_items = self.items@;
            let mut s = self.take_at(index);
            s.shape = shape;
            self.items.set(index, s);
            proof {
                assert(self.items@ =~= old_items.update(index as int, s));
                Self::lemma_view_update(old_items, index as int, s);
            }
        }
    }

    /// Record a completed move: `original` is the shape when the drag
    /// started. Returns whether the shape actually changed; an unchanged
    /// move (or an index out of range) records nothing.
    pub fn commit_move(&mut self, index: usize, original: Shape) -> (b: bool)
        ensures
            b == (index < old(self)@.items.len() && old(self)@.items[index as int].shape
                != original@),
            final(self)@.items == old(self)@.items,
            !b ==> *final(self) == *old(self),
            b ==> final(self)@.undo == old(self)@.undo.push(
                OpView::RestoreShape { index, shape: original@ },
            ),
            b ==> final(self)@.redo.len() == 0,
            b ==> apply_spec(final(self)@.items, final(self)@.undo.last()).0 == old(
                self,
            )@.items.update(index as int, with_shape(old(self)@.items[index as int], original@)),
            b ==> apply_spec(final(self)@.items, final(self)@.undo.last()).1 is Some,
    {
        if index >= self.items.len() {
            return false;
        }
        if self.items[index].shape.same_as(&original) {
            return false;
        }
        proof {
            lemma_ops_push(self.undo@, UndoOpBox { op: UndoOp::RestoreShape { index, shape: original } });
        }
        self.undo.push(UndoOpBox { op: UndoOp::RestoreShape { index, shape: original } });
        self.redo.clear();
        proof {
            assert(self@.redo =~= Seq::<OpView>::empty());
        }
        true
    }

    /// Set a label. Returns whether it actually changed; committing the
    /// editor without edits (or an index out of range) records nothing.
    pub fn set_label(&mut self, index: usize, label: String) -> (b: bool)
        ensures
            b == (index < old(self)@.items.len() && old(self)@.items[index as int].label
                != label@),
            !b ==> *final(self) == *old(self),
            b ==> final(self)@.items == old(self)@.items.update(
                index as int,
                with_label(old(self)@.items[index as int], label@),
            ),
            b ==> final(self)@.undo == old(self)@.undo.push(
                OpView::RestoreLabel { index, label: old(self)@.items[index as int].label },
            ),
            b ==> final(self)@.redo.len() == 0,
            b ==> last_undo_restores(final(self)@, old(self)@.items),
    {
        if index >= self.items.len() {
            return false;
        }
        if self.items[index].label == label {
            return false;
        }
        let ghost before = self@;
        let ghost old_items = self.items@;
        let mut s = self.take_at(index);
        let mut label = label;
        std::mem::swap(&mut s.label, &mut label);
        let previous = label;
        self.items.set(index, s);
        proof {
            assert(self.items@ =~= old_items.update(index as int, s));
            Self::lemma_view_update(old_items, index as int, s);
        }
        proof {
            lemma_ops_push(self.undo@, UndoOpBox { op: UndoOp::RestoreLabel { index, label: previous } });
        }
        self.undo.push(UndoOpBox { op: UndoOp::RestoreLabel { index, label: previous } });
        self.redo.clear();
        proof {
            assert(self@.redo =~= Seq::<OpView>::empty());
            assert(apply_spec(self@.items, self@.undo.last()).0 =~= before.items);
        }
        true
    }

    /// Apply a state-restoring operation and return its inverse — the
    /// operation that puts things back exactly as they were.
    fn apply(&mut self, op: UndoOp) -> (inv: Option<UndoOp>)
        ensures
            (final(self)@.items, opt_op_view(inv)) == apply_spec(old(self)@.items, op@),
            final(self)@.undo == old(self)@.undo,
            final(self)@.redo == old(self)@.redo,
    {
        let ghost before = self@;
        let ghost old_items = self.items@;
        match op {
            UndoOp::Restack { from, to } => {
                if from >= self.items.len() {
                    return None;
                }
                let selection = self.items.remove(from);
                let to = if to <= self.items.len() { to } else { self.items.len() };
                self.items.insert(to, selection);
                proof {
                    assert(self@.items =~= before.items.remove(from as int).insert(
                        to as int,
                        before.items[from as int],
                    ));
                }
                Some(UndoOp::Restack { from: to, to: from })
            },
            UndoOp::RemoveLast => {
                match self.items.pop() {
                    None => None,
                    Some(selection) => {
                        proof {
                            assert(self@.items =~= before.items.drop_last());
                        }
                        Some(UndoOp::Reinsert { index: self.items.len(), selection })
                    },
                }
            },
            UndoOp::RemoveAt { index } => {
                if index >= self.items.len() {
                    return None;
                }
                let selection = self.items.remove(index);
                proof {
                    assert(self@.items =~= before.items.remove(index as int));
                }
                Some(UndoOp::Reinsert { index, selection })
            },
            UndoOp::Reinsert { index, selection } => {
                let index = if index <= self.items.len() { index } else { self.items.len() };
                self.items.insert(index, selection);
                proof {
                    assert(self@.items =~= before.items.insert(index as int, selection@));
                }
                Some(UndoOp::RemoveAt { index })
            },
            UndoOp::RestoreShape { index, shape } => {
                if index >= self.items.len() {
                    return None;
                }
                let mut s = self.take_at(index);
                let mut shape = shape;
                std::mem::swap(&mut s.shape, &mut shape);
                self.items.set(index, s);
                proof {
                    assert(self.items@ =~= old_items.update(index as int, s));
                    Self::lemma_view_update(old_items, index as int, s);
                }
                Some(UndoOp::RestoreShape { index, shape })
            },
            UndoOp::RestoreLabel { index, label } => {
                if index >= self.items.len() {
                    return None;
                }
                let mut s = self.take_at(index);
                let mut label = label;
                std::mem::swap(&mut s.label, &mut label);
                self.items.set(index, s);
                proof {
                    assert(self.items@ =~= old_items.update(index as int, s));
                    Self::lemma_view_update(old_items, index as int, s);
                }
                Some(UndoOp::RestoreLabel { index, label })
            },
            UndoOp::RestoreRotation { index, deg } => {
                if index >= self.items.len() {
                    return None;
                }
                let mut s = self.take_at(index);
                let previous = s.rot_deg;
                s.rot_deg = deg;
                self.items.set(index, s);
                proof {
                    assert(self.items@ =~= old_items.update(index as int, s));
                    Self::lemma_view_update(old_items, index as int, s);
                }
                Some(UndoOp::RestoreRotation { index, deg: previous })
            },
        }
    }

    /// Undo the most recent edit. Returns `false` when there is nothing to
    /// undo.
    pub fn undo(&mut self) -> (b: bool)
        ensures
            (final(self)@, b) == undo_spec(old(self)@),
    {
        let ghost before = self@;
        match self.undo.pop() {
            None => false,
            Some(op) => {
                proof {
                    lemma_ops_drop_last(old(self).undo@);
                    assert(self.undo@ =~= old(self).undo@.drop_last());
                }
                let inv = self.apply(op.op);
                if let Some(inverse) = inv {
                    proof {
                        lemma_ops_push(self.redo@, UndoOpBox { op: inverse });
                    }
                    self.redo.push(UndoOpBox { op: inverse });
                }
                true
            },
        }
    }

    /// Re-apply the most recently undone edit. Returns `false` when there
    /// is nothing to redo — any new edit empties the redo branch.
    pub fn redo(&mut self) -> (b: bool)
        ensures
            (final(self)@, b) == redo_spec(old(self)@),
    {
        let ghost before = self@;
        match self.redo.pop() {
            None => false,
            Some(op) => {
                proof {
                    lemma_ops_drop_last(old(self).redo@);
                    assert(self.redo@ =~= old(self).redo@.drop_last());
                }
                let inv = self.apply(op.op);
                if let Some(inverse) = inv {
                    proof {
                        lemma_ops_push(self.undo@, UndoOpBox { op: inverse });
                    }
                    self.undo.push(UndoOpBox { op: inverse });
                }
                true
            },
        }
    }

    /// Send the topmost selection on `monitor` covering the point to just
    /// below the lowest one covering it, so the next grab reaches what was
    /// beneath. `covered[i]` says whether selection `i` covers the point.
    /// Returns `false` (and changes nothing) when fewer than two selections
    /// cover it. Stacking order is also save order, so this is an undoable
    /// edit like any other.
    pub fn cycle_at(&mut self, monitor: usize, covered: &Vec<bool>) -> (b: bool)
        requires
            covered@.len() == old(self)@.items.len(),
        ensures
            b == (exists|i: int, j: int|
                0 <= i < j < old(self)@.items.len() && #[trigger] hit_here(
                    old(self)@.items,
                    monitor,
                    covered@,
                    i,
                ) && #[trigger] hit_here(old(self)@.items, monitor, covered@, j)),
            !b ==> *final(self) == *old(self),
            b ==> exists|bottom: usize, top: usize|
                #![trigger lowest_hit(old(self)@.items, monitor, covered@, bottom as int), is_topmost_hit(old(self)@.items, monitor, covered@, top as int)]
                {
                    &&& lowest_hit(old(self)@.items, monitor, covered@, bottom as int)
                    &&& is_topmost_hit(old(self)@.items, monitor, covered@, top as int)
                    &&& bottom < top
                    &&& final(self)@.items == old(self)@.items.remove(top as int).insert(
                        bottom as int,
                        old(self)@.items[top as int],
                    )
                    &&& final(self)@.undo == old(self)@.undo.push(
                        OpView::Restack { from: bottom, to: top },
                    )
                },
            b ==> final(self)@.redo.len() == 0,
            b ==> last_undo_restores(final(self)@, old(self)@.items),
    {
        let ghost before = self@;
        let n = self.items.len();
        let mut bottom: usize = 0;
        while bottom < n && !(self.items[bottom].monitor == monitor && covered[bottom])
            invariant
                bottom <= n,
                n == self.items@.len(),
                covered@.len() == n,
                self@ == before,
                forall|j: int| 0 <= j < bottom ==> !#[trigger] hit_here(before.items, monitor, covered@, j),
            decreases n - bottom,
        {
            bottom = bottom + 1;
        }
        if bottom == n {
            return false;
        }
        let mut top: usize = n - 1;
        while top > bottom && !(self.items[top].monitor == monitor && covered[top])
            invariant
                bottom <= top < n,
                n == self.items@.len(),
                covered@.len() == n,
                self@ == before,
                hit_here(before.items, monitor, covered@, bottom as int),
                forall|j: int| top < j < n ==> !#[trigger] hit_here(before.items, monitor, covered@, j),
            decreases top,
        {
            top = top - 1;
        }
        if top == bottom {
            proof {
                assert forall|i: int, j: int|
                    0 <= i < j < n && #[trigger] hit_here(before.items, monitor, covered@, i)
                        implies !#[trigger] hit_here(before.items, monitor, covered@, j) by {
                    if i < bottom {
                    } else {
                        assert(j > top);
                    }
                }
            }
            return false;
        }
        let selection = self.items.remove(top);
        self.items.insert(bottom, selection);
        proof {
            assert(self@.items =~= before.items.remove(top as int).insert(
                bottom as int,
                before.items[top as int],
            ));
            lemma_ops_push(self.undo@, UndoOpBox { op: UndoOp::Restack { from: bottom, to: top } });
        }
        self.undo.push(UndoOpBox { op: UndoOp::Restack { from: bottom, to: top } });
        self.redo.clear();
        proof {
            assert(self@.redo =~= Seq::<OpView>::empty());
            assert(hit_here(before.items, monitor, covered@, bottom as int));
            assert(hit_here(before.items, monitor, covered@, top as int));
            let items2 = self@.items;
            let rest = items2.remove(bottom as int);
            assert(rest =~= before.items.remove(top as int));
            assert(rest.insert(top as int, items2[bottom as int]) =~= before.items);
            assert(lowest_hit(before.items, monitor, covered@, bottom as int));
            assert(is_topmost_hit(before.items, monitor, covered@, top as int));
        }
        true
    }
}

/// Applying a recorded operation and then the inverse it yields puts the
/// selections back exactly as they were; an operation that cannot apply
/// yields no inverse and changes nothing.
pub proof fn lemma_apply_then_inverse_restores(items: Seq<SelectionView>, op: OpView)
    requires
        items.len() <= usize::MAX,
    ensures
        match apply_spec(items, op).1 {
            Some(inv) => apply_spec(apply_spec(items, op).0, inv).0 == items,
            None => apply_spec(items, op).0 == items,
        },
{
    match op {
        OpView::Restack { from, to } => {
            if from < items.len() {
                let rest = items.remove(from as int);
                let t = if to as int <= rest.len() { to } else { rest.len() as usize };
                let moved = rest.insert(t as int, items[from as int]);
                assert(moved.len() == items.len());
                assert(t < moved.len());
                assert(moved[t as int] == items[from as int]);
                assert(moved.remove(t as int) =~= rest);
                assert(from as int <= rest.len());
                assert(rest.insert(from as int, moved[t as int]) =~= items);
                assert(apply_spec(items, op).1 == Some(OpView::Restack { from: t, to: from }));
                assert(apply_spec(items, op).0 == moved);
                assert(apply_spec(moved, OpView::Restack { from: t, to: from }).0 == items);
            }
        },
        OpView::RemoveLast => {
            if items.len() > 0 {
                assert(items.drop_last().insert(items.len() - 1, items.last()) =~= items);
            }
        },
        OpView::RemoveAt { index } => {
            if index < items.len() {
                assert(items.remove(index as int).insert(index as int, items[index as int]) =~= items);
            }
        },
        OpView::Reinsert { index, selection } => {
            let i = if index as int <= items.len() { index } else { items.len() as usize };
            assert(items.insert(i as int, selection).remove(i as int) =~= items);
        },
        OpView::RestoreShape { index, shape } => {
            if index < items.len() {
                let after = items.update(index as int, with_shape(items[index as int], shape));
                assert(after.update(index as int, with_shape(after[index as int], items[index as int].shape)) =~= items);
            }
        },
        OpView::RestoreLabel { index, label } => {
            if index < items.len() {
                let after = items.update(index as int, with_label(items[index as int], label));
                assert(after.update(index as int, with_label(after[index as int], items[index as int].label)) =~= items);
            }
        },
        OpView::RestoreRotation { index, deg } => {
            if index < items.len() {
                let after = items.update(index as int, with_rotation(items[index as int], deg));
                assert(after.update(index as int, with_rotation(after[index as int], items[index as int].rot_deg)) =~= items);
            }
        },
    }
}

/// Undo right after an edit puts the selections back as they were before
/// the edit (every edit's contract says its recorded operation does).
pub proof fn lemma_undo_after_edit(st: SetView, before: Seq<SelectionView>)
    requires
        last_undo_restores(st, before),
    ensures
        undo_spec(st).1,
        undo_spec(st).0.items == before,
        undo_spec(st).0.undo == st.undo.drop_last(),
{
}

/// Redo right after an undo that applied brings the selections back to
/// where they were before the undo, and leaves the redo stack as it was.
pub proof fn lemma_redo_after_undo(st: SetView)
    requires
        st.items.len() <= usize::MAX,
        st.undo.len() > 0,
        apply_spec(st.items, st.undo.last()).1 is Some,
    ensures
        redo_spec(undo_spec(st).0).1,
        redo_spec(undo_spec(st).0).0.items == st.items,
        redo_spec(undo_spec(st).0).0.redo == st.redo,
{
    lemma_apply_then_inverse_restores(st.items, st.undo.last());
    let u = undo_spec(st).0;
    assert(u.redo.drop_last() =~= st.redo);
}

/// Undo right after a redo that applied brings the selections back to
/// where they were before the redo, and leaves the undo stack as it was.
pub proof fn lemma_undo_after_redo(st: SetView)
    requires
        st.items.len() <= usize::MAX,
        st.redo.len() > 0,
        apply_spec(st.items, st.redo.last()).1 is Some,
    ensures
        undo_spec(redo_spec(st).0).1,
        undo_spec(redo_spec(st).0).0.items == st.items,
        undo_spec(redo_spec(st).0).0.undo == st.undo,
{
    lemma_apply_then_inverse_restores(st.items, st.redo.last());
    let r = redo_spec(st).0;
    assert(r.undo.drop_last() =~= st.undo);
}

/// A drag shown live (`set_shape_live`) and then committed with the shape
/// it started from (`commit_move`) is undone back to the starting state.
pub proof fn lemma_live_drag_commit_undo(items: Seq<SelectionView>, index: usize, dragged: ShapeView)
    requires
        index < items.len(),
    ensures
        ({
            let live = items.update(index as int, with_shape(items[index as int], dragged));
            apply_spec(live, OpView::RestoreShape { index, shape: items[index as int].shape }).0 == items
        }),
{
    let live = items.update(index as int, with_shape(items[index as int], dragged));
    assert(live.update(index as int, with_shape(live[index as int], items[index as int].shape)) =~= items);
}

/// A freshly seeded set has a history that rewinds to its own selections.
pub proof fn lemma_seed_starts_history(v: Seq<SelectionView>)
    requires
        v.len() <= usize::MAX,
    ensures
        rewinds(v, Seq::<OpView>::empty(), v),
        replays(v, Seq::<OpView>::empty(), v),
{
}

/// A recorded edit extends a history that rewinds to `v`: the edit's
/// operation takes the selections back to where they were before it, and
/// from there the older history rewinds to `v`.
pub proof fn lemma_edit_extends_history(before: SetView, after: SetView, v: Seq<SelectionView>)
    requires
        rewinds(before.items, before.undo, v),
        after.items.len() <= usize::MAX,
        after.undo == before.undo.push(after.undo.last()),
        last_undo_restores(after, before.items),
    ensures
        rewinds(after.items, after.undo, v),
{
    assert(after.undo.drop_last() =~= before.undo);
}

/// A drag shown live and committed with the shape it started from
/// (`set_shape_live` then `commit_move`) extends the history like any edit.
pub proof fn lemma_drag_extends_history(
    before: SetView,
    after: SetView,
    index: usize,
    dragged: ShapeView,
    v: Seq<SelectionView>,
)
    requires
        rewinds(before.items, before.undo, v),
        index < before.items.len(),
        after.items == before.items.update(index as int, with_shape(before.items[index as int], dragged)),
        after.undo == before.undo.push(OpView::RestoreShape { index, shape: before.items[index as int].shape }),
    ensures
        rewinds(after.items, after.undo, v),
{
    lemma_live_drag_commit_undo(before.items, index, dragged);
    assert(after.undo.drop_last() =~= before.undo);
}

proof fn lemma_undo_step(st: SetView, v0: Seq<SelectionView>, v1: Seq<SelectionView>)
    requires
        rewinds(st.items, st.undo, v0),
        st.undo.len() > 0,
    ensures
        undo_spec(st).1,
        rewinds(undo_spec(st).0.items, undo_spec(st).0.undo, v0),
        undo_spec(st).0.undo.len() == st.undo.len() - 1,
        undo_spec(st).0.redo.len() == st.redo.len() + 1,
        replays(st.items, st.redo, v1) ==> replays(undo_spec(st).0.items, undo_spec(st).0.redo, v1),
{
    lemma_apply_then_inverse_restores(st.items, st.undo.last());
    let u = undo_spec(st).0;
    assert(u.redo.drop_last() =~= st.redo);
}

proof fn lemma_undo_n_keeps(st: SetView, v0: Seq<SelectionView>, v1: Seq<SelectionView>, k: nat)
    requires
        rewinds(st.items, st.undo, v0),
        k <= st.undo.len(),
    ensures
        rewinds(undo_n(st, k).items, undo_n(st, k).undo, v0),
        undo_n(st, k).undo.len() == st.undo.len() - k,
        undo_n(st, k).redo.len() == st.redo.len() + k,
        forall|j: nat| j < k ==> #[trigger] undo_spec(undo_n(st, j)).1,
        replays(st.items, st.redo, v1) ==> replays(undo_n(st, k).items, undo_n(st, k).redo, v1),
    decreases k,
{
    if k > 0 {
        lemma_undo_step(st, v0, v1);
        let u = undo_spec(st).0;
        lemma_undo_n_keeps(u, v0, v1, (k - 1) as nat);
        assert forall|j: nat| j < k implies #[trigger] undo_spec(undo_n(st, j)).1 by {
            if j > 0 {
                assert(undo_n(st, j) == undo_n(u, (j - 1) as nat));
            }
        }
    }
}

/// Undo is last-in first-out down to the seed: from a state whose history
/// rewinds to `v`, each of as many undos as there are recorded edits
/// returns true, after them the selections are `v`, and one more undo
/// returns false and changes nothing.
pub proof fn lemma_undo_rewinds_to_seed(st: SetView, v: Seq<SelectionView>)
    requires
        rewinds(st.items, st.undo, v),
    ensures
        forall|j: nat| j < st.undo.len() ==> #[trigger] undo_spec(undo_n(st, j)).1,
        undo_n(st, st.undo.len()).items == v,
        undo_spec(undo_n(st, st.undo.len())) == (undo_n(st, st.undo.len()), false),
{
    lemma_undo_n_keeps(st, v, v, st.undo.len());
}

proof fn lemma_redo_n_replays(st: SetView, v1: Seq<SelectionView>, k: nat)
    requires
        replays(st.items, st.redo, v1),
        k <= st.redo.len(),
    ensures
        replays(redo_n(st, k).items, redo_n(st, k).redo, v1),
        redo_n(st, k).redo.len() == st.redo.len() - k,
        forall|j: nat| j < k ==> #[trigger] redo_spec(redo_n(st, j)).1,
    decreases k,
{
    if k > 0 {
        let r = redo_spec(st).0;
        lemma_redo_n_replays(r, v1, (k - 1) as nat);
        assert forall|j: nat| j < k implies #[trigger] redo_spec(redo_n(st, j)).1 by {
            if j > 0 {
                assert(redo_n(st, j) == redo_n(r, (j - 1) as nat));
            }
        }
    }
}

/// Redo replays what was undone: from a state reached by recorded edits
/// (history rewinding to `v0`, nothing to redo), `k` undos followed by `k`
/// redos each return true and end on the selections the edits produced;
/// one more redo then returns false.
pub proof fn lemma_redo_replays_undone(st: SetView, v0: Seq<SelectionView>, k: nat)
    requires
        rewinds(st.items, st.undo, v0),
        st.redo.len() == 0,
        k <= st.undo.len(),
    ensures
        forall|j: nat| j < k ==> #[trigger] undo_spec(undo_n(st, j)).1,
        forall|j: nat| j < k ==> #[trigger] redo_spec(redo_n(undo_n(st, k), j)).1,
        redo_n(undo_n(st, k), k).items == st.items,
        !redo_spec(redo_n(undo_n(st, k), k)).1,
{
    lemma_undo_n_keeps(st, v0, st.items, k);
    lemma_redo_n_replays(undo_n(st, k), st.items, k);
}

/// Any recorded edit empties the redo stack (every edit's contract says
/// so), after which redo returns false and changes nothing.
pub proof fn lemma_no_redo_after_edit(st: SetView)
    requires
        st.redo.len() == 0,
    ensures
        redo_spec(st) == (st, false),
{
}

/// `after` follows `before` by one recorded edit: the edit's operation was
/// pushed on the undo stack, applies, and takes the selections back to
/// `before`'s, and the redo stack was emptied. Every successful `add`,
/// `delete`, `rotate`, `set_label` and `cycle_at` says so of its own call,
/// and so does `set_shape_live` followed by `commit_move` with the shape
/// the drag started from (see `lemma_drag_extends_history`).
pub open spec fn recorded_step(before: SetView, after: SetView) -> bool {
    &&& after.items.len() <= usize::MAX
    &&& after.undo == before.undo.push(after.undo.last())
    &&& last_undo_restores(after, before.items)
    &&& after.redo.len() == 0
}

proof fn lemma_recorded_prefix_rewinds(hist: Seq<SetView>, v: Seq<SelectionView>, i: int)
    requires
        1 <= i <= hist.len(),
        hist[0].items == v,
        hist[0].undo.len() == 0,
        v.len() <= usize::MAX,
        forall|j: int| 0 <= j < hist.len() - 1 ==> #[trigger] recorded_step(hist[j], hist[j + 1]),
    ensures
        rewinds(hist[i - 1].items, hist[i - 1].undo, v),
        hist[i - 1].undo.len() == i - 1,
    decreases i,
{
    if i == 1 {
        lemma_seed_starts_history(v);
        assert(hist[0].undo =~= Seq::<OpView>::empty());
    } else {
        lemma_recorded_prefix_rewinds(hist, v, i - 1);
        assert(recorded_step(hist[i - 2], hist[i - 2 + 1]));
        lemma_edit_extends_history(hist[i - 2], hist[i - 1], v);
    }
}

/// Undo and redo over any run of recorded edits: from a set seeded with `v`
/// (no history) through `n` recorded edits of any kinds, the `n` undos each
/// return true and end on `v`, one more returns false and changes nothing;
/// and for any `k <= n`, `k` undos followed by `k` redos each return true
/// and end on the edited selections, after which redo returns false.
pub proof fn lemma_recorded_edits_undo_and_redo(hist: Seq<SetView>, v: Seq<SelectionView>, k: nat)
    requires
        hist.len() >= 1,
        hist[0].items == v,
        hist[0].undo.len() == 0,
        hist[0].redo.len() == 0,
        v.len() <= usize::MAX,
        forall|j: int| 0 <= j < hist.len() - 1 ==> #[trigger] recorded_step(hist[j], hist[j + 1]),
        k <= hist.len() - 1,
    ensures
        ({
            let st = hist.last();
            let n = (hist.len() - 1) as nat;
            &&& st.undo.len() == n
            &&& forall|j: nat| j < n ==> #[trigger] undo_spec(undo_n(st, j)).1
            &&& undo_n(st, n).items == v
            &&& undo_spec(undo_n(st, n)) == (undo_n(st, n), false)
            &&& forall|j: nat| j < k ==> #[trigger] redo_spec(redo_n(undo_n(st, k), j)).1
            &&& redo_n(undo_n(st, k), k).items == st.items
            &&& !redo_spec(redo_n(undo_n(st, k), k)).1
        }),
{
    let len = hist.len() as int;
    lemma_recorded_prefix_rewinds(hist, v, len);
    let st = hist.last();
    assert(st == hist[len - 1]);
    if len > 1 {
        assert(recorded_step(hist[len - 2], hist[len - 2 + 1]));
    }
    lemma_undo_rewinds_to_seed(st, v);
    lemma_redo_replays_undone(st, v, k);
}

} // verus!
