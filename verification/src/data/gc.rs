use vstd::prelude::*;
use crate::data::objects::{OwnedObjectItem, Value};

verus! {

/// How many objects may be stored before a collection is due.
pub const DEFAULT_THRESHOLD: usize = 1024;

/// The heap: an arena of objects, each named by the index of its slot. A slot
/// is empty or holds one object; the free list names empty slots to use again.
pub struct GC {
    pub objects: Vec<Option<OwnedObjectItem>>,
    pub free: Vec<usize>,
    pub allocations: usize,
    pub threshold: usize,
}

impl GC {
    /// The free list names empty slots only, and each at most once.
    pub open spec fn wf(&self) -> bool {
        &&& forall|i: int|
            0 <= i < self.free@.len() ==> (#[trigger] self.free@[i]) < self.objects@.len()
                && self.objects@[self.free@[i] as int] is None
        &&& self.free@.no_duplicates()
    }

    /// Whether `handle` names an object.
    pub open spec fn contains(&self, handle: usize) -> bool {
        handle < self.objects@.len() && self.objects@[handle as int] is Some
    }

    /// The object that `handle` names.
    pub open spec fn object(&self, handle: usize) -> OwnedObjectItem
        recommends
            self.contains(handle),
    {
        self.objects@[handle as int]->Some_0
    }

    /// The slot that the next stored object goes to.
    pub open spec fn next_handle(&self) -> usize {
        if self.free@.len() > 0 {
            self.free@.last()
        } else {
            self.objects@.len() as usize
        }
    }

    /// Every object of `self` is an object of `other`, unchanged.
    pub open spec fn preserved_in(&self, other: &GC) -> bool {
        forall|h: usize| #[trigger]
            self.contains(h) ==> other.contains(h) && other.object(h) == self.object(h)
    }

    /// Whether `self` is `before` with one more object, `item`, in the slot
    /// that was next, and every other object unchanged.
    pub open spec fn stored_from(&self, before: &GC, item: OwnedObjectItem) -> bool {
        &&& self.wf()
        &&& self.contains(before.next_handle())
        &&& !before.contains(before.next_handle())
        &&& self.object(before.next_handle()) == item
        &&& before.preserved_in(self)
        &&& forall|h: usize| h != before.next_handle() ==> self.contains(h) == before.contains(h)
        &&& self.threshold == before.threshold
    }

    /// Whether `self` is `before` with one more object in the slot that was
    /// next, and every other object unchanged.
    pub open spec fn grown_from(&self, before: &GC) -> bool {
        &&& self.wf()
        &&& self.contains(before.next_handle())
        &&& !before.contains(before.next_handle())
        &&& before.preserved_in(self)
        &&& forall|h: usize| h != before.next_handle() ==> self.contains(h) == before.contains(h)
        &&& self.threshold == before.threshold
    }

    /// Whether `self` is `before` with `item` in the place of the object
    /// that `handle` names, and every other object unchanged.
    pub open spec fn replaced_from(&self, before: &GC, handle: usize, item: OwnedObjectItem) -> bool {
        &&& self.wf()
        &&& self.objects@.len() == before.objects@.len()
        &&& forall|h: usize| self.contains(h) == before.contains(h)
        &&& forall|h: usize|
            h != handle && before.contains(h) ==> self.object(h) == before.object(h)
        &&& self.object(handle) == item
        &&& self.free == before.free
        &&& self.threshold == before.threshold
        &&& self.allocations == before.allocations
    }

    /// An empty heap with the default collection threshold.
    pub fn default_gc() -> (gc: GC)
        ensures
            gc.wf(),
            gc.objects@.len() == 0,
            gc.free@.len() == 0,
            gc.allocations == 0,
            gc.threshold == DEFAULT_THRESHOLD,
    {
        GC { objects: Vec::new(), free: Vec::new(), allocations: 0, threshold: DEFAULT_THRESHOLD }
    }

    /// Stores an object and returns the value that names it. The object goes
    /// to the slot named last in the free list, or to a new slot at the end;
    /// no other object changes.
    pub fn store(&mut self, item: OwnedObjectItem) -> (v: Value)
        requires
            old(self).wf(),
        ensures
            final(self).wf(),
            v == item.spec_value_at(old(self).next_handle()),
            !old(self).contains(old(self).next_handle()),
            final(self).contains(old(self).next_handle()),
            final(self).object(old(self).next_handle()) == item,
            forall|h: usize|
                h != old(self).next_handle() ==> final(self).contains(h) == old(self).contains(h),
            old(self).preserved_in(final(self)),
            final(self).stored_from(old(self), item),
            final(self).threshold == old(self).threshold,
            final(self).allocations == if old(self).allocations < usize::MAX {
                old(self).allocations + 1
            } else {
                usize::MAX as int
            },
    {
        let ghost before = *self;
        if self.allocations < usize::MAX {
            self.allocations = self.allocations + 1;
        }
        match self.free.pop() {
            Some(slot) => {
                let v = item.value_at(slot);
                proof {
                    assert(before.free@[before.free@.len() - 1] == slot);
                }
                self.objects.set(slot, Some(item));
                proof {
                    assert forall|i: int| 0 <= i < self.free@.len() implies (
                    #[trigger] self.free@[i]) < self.objects@.len()
                        && self.objects@[self.free@[i] as int] is None by {
                        assert(self.free@[i] == before.free@[i]);
                        assert(before.free@[i] != before.free@[before.free@.len() - 1]);
                    }
                }
                v
            },
            None => {
                let slot = self.objects.len();
                let v = item.value_at(slot);
                self.objects.push(Some(item));
                v
            },
        }
    }

    /// The object that `handle` names, if it names one.
    pub fn get(&self, handle: usize) -> (item: Option<&OwnedObjectItem>)
        ensures
            item is Some == self.contains(handle),
            item is Some ==> *item->Some_0 == self.object(handle),
    {
        if handle < self.objects.len() {
            self.objects[handle].as_ref()
        } else {
            None
        }
    }

    /// The elements of the list that a value names, if it names one.
    pub open spec fn spec_list(&self, value: Value) -> Option<Seq<Value>> {
        match value {
            Value::List(h) => if self.contains(h) {
                match self.object(h) {
                    OwnedObjectItem::List(elements) => Some(elements@),
                    _ => None,
                }
            } else {
                None
            },
            _ => None,
        }
    }

    pub fn list(&self, value: Value) -> (elements: Option<&Vec<Value>>)
        ensures
            elements is Some == self.spec_list(value) is Some,
            elements is Some ==> elements->Some_0@ == self.spec_list(value)->Some_0,
    {
        match value {
            Value::List(h) => match self.get(h) {
                Some(OwnedObjectItem::List(elements)) => Some(elements),
                _ => None,
            },
            _ => None,
        }
    }

    /// The text of the string that a value names, if it names one.
    pub open spec fn spec_text(&self, value: Value) -> Option<Seq<char>> {
        match value {
            Value::Str(h) => if self.contains(h) {
                match self.object(h) {
                    OwnedObjectItem::Str(text) => Some(text@),
                    _ => None,
                }
            } else {
                None
            },
            _ => None,
        }
    }

    pub fn text(&self, value: Value) -> (text: Option<&String>)
        ensures
            text is Some == self.spec_text(value) is Some,
            text is Some ==> text->Some_0@ == self.spec_text(value)->Some_0,
    {
        match value {
            Value::Str(h) => match self.get(h) {
                Some(OwnedObjectItem::Str(text)) => Some(text),
                _ => None,
            },
            _ => None,
        }
    }

    /// Puts `item` in the place of the object that `handle` names and hands
    /// the former object back. Nothing happens where `handle` names no object.
    pub fn replace(&mut self, handle: usize, item: OwnedObjectItem) -> (former: Option<OwnedObjectItem>)
        requires
            old(self).wf(),
        ensures
            final(self).wf(),
            former is Some == old(self).contains(handle),
            former is Some ==> former->Some_0 == old(self).object(handle),
            final(self).objects@.len() == old(self).objects@.len(),
            forall|h: usize| final(self).contains(h) == old(self).contains(h),
            forall|h: usize|
                h != handle && old(self).contains(h) ==> final(self).object(h) == old(self).object(h),
            old(self).contains(handle) ==> final(self).object(handle) == item && final(self).replaced_from(old(self), handle, item),
            !old(self).contains(handle) ==> *final(self) == *old(self),
            final(self).free == old(self).free,
            final(self).threshold == old(self).threshold,
            final(self).allocations == old(self).allocations,
    {
        if handle < self.objects.len() && self.objects[handle].is_some() {
            let mut slot = Some(item);
            let ghost before = self.objects@;
            std::mem::swap(&mut self.objects[handle], &mut slot);
            slot
        } else {
            None
        }
    }

    /// The object that a value names, where it names one of this heap.
    pub open spec fn target(&self, value: Value) -> Option<usize> {
        match value.spec_handle() {
            Some(h) => if self.contains(h) {
                Some(h)
            } else {
                None
            },
            None => None,
        }
    }

    /// Whether the object `a` holds a value that names the object `b`.
    pub open spec fn points_to(&self, a: usize, b: usize) -> bool {
        &&& self.contains(a)
        &&& exists|k: int|
            0 <= k < self.object(a).spec_references().len() && self.target(
                #[trigger] self.object(a).spec_references()[k],
            ) == Some(b)
    }

    /// Whether one of `roots` names the object `h`.
    pub open spec fn is_root(&self, roots: Seq<Value>, h: usize) -> bool {
        exists|i: int| 0 <= i < roots.len() && self.target(#[trigger] roots[i]) == Some(h)
    }

    /// Whether `path` leads from a root from object to object, each holding
    /// a value that names the next.
    pub open spec fn is_path(&self, roots: Seq<Value>, path: Seq<usize>) -> bool {
        &&& path.len() > 0
        &&& self.is_root(roots, path[0])
        &&& forall|i: int|
            0 <= i < path.len() - 1 ==> self.points_to(#[trigger] path[i], path[i + 1])
    }

    /// Whether the object `h` can be reached from `roots`.
    pub open spec fn reachable(&self, roots: Seq<Value>, h: usize) -> bool {
        exists|path: Seq<usize>| #[trigger] self.is_path(roots, path) && path.last() == h
    }

    /// Whether `after` is what a collection with `roots` makes of `self`:
    /// it holds exactly the objects of `self` that can be reached from the
    /// roots, each unchanged and under its own handle.
    pub open spec fn collected_to(&self, after: &GC, roots: Seq<Value>) -> bool {
        &&& after.objects@.len() == self.objects@.len()
        &&& forall|h: usize| #[trigger]
            after.contains(h) <==> self.contains(h) && self.reachable(roots, h)
        &&& forall|h: usize| #[trigger]
            after.contains(h) ==> after.object(h) == self.object(h)
    }

    /// Whether a collection is due: as many objects were stored since the
    /// last one as the threshold says.
    pub fn should_collect(&self) -> (due: bool)
        ensures
            due == (self.allocations >= self.threshold),
    {
        self.allocations >= self.threshold
    }

    /// Marks what can be reached from `roots` and frees every other object.
    pub fn collect(&mut self, roots: &Vec<Value>)
        requires
            old(self).wf(),
        ensures
            final(self).wf(),
            old(self).collected_to(final(self), roots@),
            final(self).allocations == 0,
            final(self).threshold == old(self).threshold,
    {
        let marks = self.mark(roots);
        self.sweep(&marks);
    }

    /// The object that a value names, where it is not marked yet.
    pub open spec fn unmarked_target(&self, value: Value, marks: Seq<bool>) -> Option<usize> {
        match self.target(value) {
            Some(h) => if marks[h as int] {
                None
            } else {
                Some(h)
            },
            None => None,
        }
    }

    fn mark_value(&self, value: Value, marks: &mut Vec<bool>, worklist: &mut Vec<usize>)
        requires
            old(marks)@.len() == self.objects@.len(),
        ensures
            final(marks)@.len() == old(marks)@.len(),
            self.unmarked_target(value, old(marks)@) matches Some(h) ==> final(marks)@ == old(
                marks,
            )@.update(h as int, true) && final(worklist)@ == old(worklist)@.push(h),
            self.unmarked_target(value, old(marks)@) is None ==> final(marks)@ == old(marks)@
                && final(worklist)@ == old(worklist)@,
    {
        match value.handle() {
            Some(h) => {
                if h < self.objects.len() && self.objects[h].is_some() && !marks[h] {
                    marks.set(h, true);
                    worklist.push(h);
                }
            },
            None => {},
        }
    }

    /// What is marked can be reached.
    pub open spec fn marks_sound(&self, roots: Seq<Value>, marks: Seq<bool>) -> bool {
        &&& marks.len() == self.objects@.len()
        &&& forall|h: usize|
            h < marks.len() && #[trigger] marks[h as int] ==> self.contains(h) && self.reachable(
                roots,
                h,
            )
    }

    /// Every object that the first `k` values held by the marked object `a`
    /// name is marked.
    pub open spec fn children_marked(&self, marks: Seq<bool>, a: usize, k: int) -> bool {
        forall|j: int|
            0 <= j < k && j < self.object(a).spec_references().len() ==> (self.target(
                #[trigger] self.object(a).spec_references()[j],
            ) matches Some(b) ==> marks[b as int])
    }

    /// Every marked object that is neither waiting in `worklist` nor the
    /// object `current` has all its children marked.
    pub open spec fn marks_closed(
        &self,
        marks: Seq<bool>,
        worklist: Seq<usize>,
        current: Option<usize>,
    ) -> bool {
        forall|a: usize|
            a < marks.len() && #[trigger] marks[a as int] && !worklist.contains(a) && current
                != Some(a) ==> self.children_marked(
                marks,
                a,
                self.object(a).spec_references().len() as int,
            )
    }

    fn mark(&self, roots: &Vec<Value>) -> (marks: Vec<bool>)
        ensures
            marks@.len() == self.objects@.len(),
            forall|h: usize|
                h < marks@.len() ==> (#[trigger] marks@[h as int] <==> self.contains(h)
                    && self.reachable(roots@, h)),
    {
        let n = self.objects.len();
        let mut marks: Vec<bool> = Vec::new();
        while marks.len() < n
            invariant
                marks@.len() <= n,
                n == self.objects@.len(),
                forall|h: int| 0 <= h < marks@.len() ==> !#[trigger] marks@[h],
            decreases n - marks@.len(),
        {
            marks.push(false);
        }
        let mut worklist: Vec<usize> = Vec::new();
        let mut i: usize = 0;
        while i < roots.len()
            invariant
                i <= roots.len(),
                self.marks_sound(roots@, marks@),
                forall|w: int| 0 <= w < worklist@.len() ==> (#[trigger] worklist@[w]) < marks@.len()
                    && marks@[worklist@[w] as int],
                forall|r: int|
                    0 <= r < i ==> (self.target(#[trigger] roots@[r]) matches Some(h)
                        ==> marks@[h as int]),
                forall|a: usize| a < marks@.len() && #[trigger] marks@[a as int] ==> worklist@.contains(a),
            decreases roots.len() - i,
        {
            let ghost before = marks@;
            let ghost waiting = worklist@;
            self.mark_value(roots[i], &mut marks, &mut worklist);
            proof {
                match self.target(roots@[i as int]) {
                    Some(h) => {
                        if !before[h as int] {
                            let path = seq![h];
                            assert(self.is_root(roots@, h));
                            assert(self.is_path(roots@, path));
                            assert(worklist@.last() == h);
                            assert forall|a: usize|
                                a < marks@.len() && #[trigger] marks@[a as int] implies worklist@.contains(
                                a,
                            ) by {
                                if a == h {
                                    assert(worklist@[worklist@.len() - 1] == a);
                                } else {
                                    assert(before[a as int]);
                                    let w = choose|w: int| 0 <= w < waiting.len() && waiting[w] == a;
                                    assert(worklist@[w] == a);
                                }
                            }
                        }
                    },
                    None => {},
                }
            }
            i += 1;
        }
        assert(self.marks_closed(marks@, worklist@, None));
        while worklist.len() > 0
            invariant
                self.marks_sound(roots@, marks@),
                forall|w: int| 0 <= w < worklist@.len() ==> (#[trigger] worklist@[w]) < marks@.len()
                    && marks@[worklist@[w] as int],
                forall|r: int|
                    0 <= r < roots@.len() ==> (self.target(#[trigger] roots@[r]) matches Some(h)
                        ==> marks@[h as int]),
                self.marks_closed(marks@, worklist@, None),
            decreases 2 * count_false(marks@) + worklist@.len(),
        {
            let ghost start_measure = 2 * count_false(marks@) + worklist@.len();
            let ghost waiting = worklist@;
            let a = worklist.pop().unwrap();
            assert(waiting[waiting.len() - 1] == a);
            assert(self.marks_closed(marks@, worklist@, Some(a))) by {
                assert forall|x: usize|
                    x < marks@.len() && #[trigger] marks@[x as int] && !worklist@.contains(x) && Some(a)
                        != Some(x) implies self.children_marked(
                    marks@,
                    x,
                    self.object(x).spec_references().len() as int,
                ) by {
                    if waiting.contains(x) {
                        let w = choose|w: int| 0 <= w < waiting.len() && waiting[w] == x;
                        assert(worklist@[w] == x);
                    }
                }
            }
            let references = match &self.objects[a] {
                Some(item) => item.references(),
                None => Vec::new(),
            };
            let mut k: usize = 0;
            while k < references.len()
                invariant
                    k <= references.len(),
                    a < marks@.len(),
                    marks@[a as int],
                    references@ == self.object(a).spec_references(),
                    self.marks_sound(roots@, marks@),
                    forall|w: int|
                        0 <= w < worklist@.len() ==> (#[trigger] worklist@[w]) < marks@.len()
                            && marks@[worklist@[w] as int],
                    forall|r: int|
                        0 <= r < roots@.len() ==> (self.target(#[trigger] roots@[r]) matches Some(h)
                            ==> marks@[h as int]),
                    self.marks_closed(marks@, worklist@, Some(a)),
                    self.children_marked(marks@, a, k as int),
                    2 * count_false(marks@) + worklist@.len() < start_measure,
                decreases references.len() - k,
            {
                let ghost before = marks@;
                let ghost queued = worklist@;
                self.mark_value(references[k], &mut marks, &mut worklist);
                proof {
                    match self.target(references@[k as int]) {
                        Some(b) => {
                            if !before[b as int] {
                                lemma_count_false_update(before, b as int);
                                let path = choose|path: Seq<usize>| #[trigger]
                                    self.is_path(roots@, path) && path.last() == a;
                                let longer = path.push(b);
                                assert(self.points_to(a, b));
                                assert forall|i: int| 0 <= i < longer.len() - 1 implies self.points_to(
                                    #[trigger] longer[i],
                                    longer[i + 1],
                                ) by {
                                    if i < path.len() - 1 {
                                        assert(self.points_to(path[i], path[i + 1]));
                                    }
                                }
                                assert(self.is_path(roots@, longer));
                                assert(longer.last() == b);
                                assert(worklist@[worklist@.len() - 1] == b);
                                assert forall|x: usize|
                                    x < marks@.len() && #[trigger] marks@[x as int]
                                        && !worklist@.contains(x) && Some(a) != Some(
                                        x,
                                    ) implies self.children_marked(
                                    marks@,
                                    x,
                                    self.object(x).spec_references().len() as int,
                                ) by {
                                    assert(x != b);
                                    assert(before[x as int]);
                                    if queued.contains(x) {
                                        let w = choose|w: int| 0 <= w < queued.len() && queued[w] == x;
                                        assert(worklist@[w] == x);
                                    }
                                    assert(self.children_marked(
                                        before,
                                        x,
                                        self.object(x).spec_references().len() as int,
                                    ));
                                }
                            }
                        },
                        None => {},
                    }
                    assert(self.children_marked(marks@, a, k + 1));
                }
                k += 1;
            }
            assert(self.marks_closed(marks@, worklist@, None));
        }
        proof {
            assert forall|h: usize| h < marks@.len() && self.contains(h) && self.reachable(
                roots@,
                h,
            ) implies #[trigger] marks@[h as int] by {
                let path = choose|path: Seq<usize>| #[trigger]
                    self.is_path(roots@, path) && path.last() == h;
                self.lemma_closed_marks_cover(roots@, marks@, path, path.len() - 1);
            }
        }
        marks
    }

    proof fn lemma_closed_marks_cover(&self, roots: Seq<Value>, marks: Seq<bool>, path: Seq<usize>, i: int)
        requires
            marks.len() == self.objects@.len(),
            self.is_path(roots, path),
            0 <= i < path.len(),
            forall|r: int|
                0 <= r < roots.len() ==> (self.target(#[trigger] roots[r]) matches Some(h)
                    ==> marks[h as int]),
            self.marks_closed(marks, Seq::empty(), None),
        ensures
            path[i] < marks.len(),
            marks[path[i] as int],
        decreases i,
    {
        if i == 0 {
            let r = choose|r: int| 0 <= r < roots.len() && self.target(#[trigger] roots[r]) == Some(path[0]);
            assert(self.target(roots[r]) == Some(path[0]));
        } else {
            self.lemma_closed_marks_cover(roots, marks, path, i - 1);
            let a = path[i - 1];
            assert(self.points_to(a, path[i]));
            assert(!Seq::<usize>::empty().contains(a));
            assert(self.children_marked(marks, a, self.object(a).spec_references().len() as int));
        }
    }

    fn sweep(&mut self, marks: &Vec<bool>)
        requires
            marks@.len() == old(self).objects@.len(),
        ensures
            final(self).wf(),
            final(self).objects@.len() == old(self).objects@.len(),
            forall|h: usize| #[trigger]
                final(self).contains(h) <==> old(self).contains(h) && marks@[h as int],
            forall|h: usize| #[trigger]
                final(self).contains(h) ==> final(self).object(h) == old(self).object(h),
            final(self).allocations == 0,
            final(self).threshold == old(self).threshold,
    {
        self.free.clear();
        self.allocations = 0;
        let n = self.objects.len();
        let mut i: usize = 0;
        while i < n
            invariant
                i <= n,
                n == self.objects@.len(),
                n == old(self).objects@.len(),
                marks@.len() == n,
                self.threshold == old(self).threshold,
                self.allocations == 0,
                forall|h: int|
                    0 <= h < i ==> (#[trigger] self.objects@[h] is Some <==> old(self).objects@[h] is Some
                        && marks@[h]),
                forall|h: int|
                    0 <= h < n && #[trigger] self.objects@[h] is Some ==> self.objects@[h] == old(
                        self,
                    ).objects@[h],
                forall|h: int| i <= h < n ==> #[trigger] self.objects@[h] == old(self).objects@[h],
                forall|f: int|
                    0 <= f < self.free@.len() ==> (#[trigger] self.free@[f]) < i
                        && self.objects@[self.free@[f] as int] is None,
                forall|f: int, g: int|
                    0 <= f < g < self.free@.len() ==> (#[trigger] self.free@[f]) < (
                    #[trigger] self.free@[g]),
            decreases n - i,
        {
            if self.objects[i].is_some() && !marks[i] {
                self.objects.set(i, None);
            }
            if self.objects[i].is_none() {
                self.free.push(i);
            }
            i += 1;
        }
    }
}

/// The number of entries of `marks` that are not set.
pub open spec fn count_false(marks: Seq<bool>) -> nat
    decreases marks.len(),
{
    if marks.len() == 0 {
        0
    } else {
        count_false(marks.drop_last()) + if marks.last() {
            0nat
        } else {
            1nat
        }
    }
}

proof fn lemma_count_false_update(marks: Seq<bool>, h: int)
    requires
        0 <= h < marks.len(),
        !marks[h],
    ensures
        count_false(marks.update(h, true)) + 1 == count_false(marks),
    decreases marks.len(),
{
    let updated = marks.update(h, true);
    if h == marks.len() - 1 {
        assert(updated.drop_last() =~= marks.drop_last());
    } else {
        lemma_count_false_update(marks.drop_last(), h);
        assert(updated.drop_last() =~= marks.drop_last().update(h, true));
    }
}

/// Whatever can be reached from the roots before a collection can be
/// reached after it, and is the same object.
pub proof fn lemma_collection_preserves_reachability(
    before: GC,
    after: GC,
    roots: Seq<Value>,
    h: usize,
)
    requires
        before.collected_to(&after, roots),
        before.reachable(roots, h),
    ensures
        after.contains(h),
        after.object(h) == before.object(h),
        after.reachable(roots, h),
{
    let path = choose|path: Seq<usize>| #[trigger] before.is_path(roots, path) && path.last() == h;
    assert forall|i: int| 0 <= i < path.len() implies before.contains(#[trigger] path[i])
        && before.reachable(roots, path[i]) by {
        let prefix = path.subrange(0, i + 1);
        assert forall|j: int| 0 <= j < prefix.len() - 1 implies before.points_to(
            #[trigger] prefix[j],
            prefix[j + 1],
        ) by {
            assert(before.points_to(path[j], path[j + 1]));
        }
        assert(prefix[0] == path[0]);
        assert(before.is_path(roots, prefix));
        assert(prefix.last() == path[i]);
        if i == 0 {
            let r = choose|r: int| 0 <= r < roots.len() && before.target(#[trigger] roots[r]) == Some(path[0]);
            assert(before.target(roots[r]) == Some(path[0]));
        } else {
            assert(before.points_to(path[i - 1], path[i]));
        }
    }
    assert forall|i: int| 0 <= i < path.len() implies after.contains(#[trigger] path[i])
        && after.object(path[i]) == before.object(path[i]) by {
        assert(before.contains(path[i]) && before.reachable(roots, path[i]));
    }
    assert(after.is_root(roots, path[0])) by {
        let r = choose|r: int| 0 <= r < roots.len() && before.target(#[trigger] roots[r]) == Some(path[0]);
        assert(after.contains(path[0]));
        assert(after.target(roots[r]) == Some(path[0]));
    }
    assert forall|i: int| 0 <= i < path.len() - 1 implies after.points_to(
        #[trigger] path[i],
        path[i + 1],
    ) by {
        assert(before.points_to(path[i], path[i + 1]));
        let k = choose|k: int|
            0 <= k < before.object(path[i]).spec_references().len() && before.target(
                #[trigger] before.object(path[i]).spec_references()[k],
            ) == Some(path[i + 1]);
        assert(after.contains(path[i + 1]));
        assert(after.target(after.object(path[i]).spec_references()[k]) == Some(path[i + 1]));
    }
    assert(after.is_path(roots, path));
}

} // verus!
