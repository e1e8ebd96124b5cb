use vstd::prelude::*;
use vstd::string::*;

verus! {

/// What the map records for one preview path.
enum Slot {
    /// Generation was requested; the wakeup primitive made by the reset of the
    /// given generation is live.
    Pending(u64),
    /// The preview is ready: nobody needs to wait for it.
    Ready,
    /// Generation failed, with the conversion's diagnostic.
    Failed(String),
}

/// The mathematical value of a [`Slot`].
pub enum SlotView {
    Pending(u64),
    Ready,
    Failed(Seq<char>),
}

impl View for Slot {
    type V = SlotView;

    closed spec fn view(&self) -> SlotView {
        match self {
            Slot::Pending(g) => SlotView::Pending(*g),
            Slot::Ready => SlotView::Ready,
            Slot::Failed(r) => SlotView::Failed(r@),
        }
    }
}

/// The answer of [`StatusMap::lookup`].
pub enum Lookup {
    /// The path is not registered for the open directory.
    NotTracked,
    /// The preview is being generated; wait on the primitive of this generation.
    Pending(u64),
    /// The preview can be read now.
    ReadyNow,
    /// Generation failed, with the diagnostic.
    Failed(String),
}

struct Entry {
    path: String,
    slot: Slot,
}

/// The shared record of the previews of the open directory, keyed by preview
/// path. A path that is absent is not tracked.
pub struct StatusMap {
    entries: Vec<Entry>,
    generation: u64,
    contents: Ghost<Map<Seq<char>, SlotView>>,
}

/// The views of a sequence of strings.
pub open spec fn string_views(v: Seq<String>) -> Seq<Seq<char>> {
    v.map_values(|s: String| s@)
}

/// The map right after a reset: a fresh primitive of generation `g` for each
/// path to generate, `Ready` for each other registered path.
pub open spec fn reset_view(pending: Seq<Seq<char>>, ready: Seq<Seq<char>>, g: u64) -> Map<
    Seq<char>,
    SlotView,
> {
    Map::new(
        |k: Seq<char>| pending.contains(k) || ready.contains(k),
        |k: Seq<char>|
            if pending.contains(k) {
                SlotView::Pending(g)
            } else {
                SlotView::Ready
            },
    )
}

/// Completion: a tracked path becomes `Ready`; an untracked one stays untracked.
pub open spec fn mark_ready_view(m: Map<Seq<char>, SlotView>, p: Seq<char>) -> Map<
    Seq<char>,
    SlotView,
> {
    if m.contains_key(p) {
        m.insert(p, SlotView::Ready)
    } else {
        m
    }
}

/// Failure: a pending path becomes `Failed`; any other path is left as it is.
pub open spec fn mark_failed_view(
    m: Map<Seq<char>, SlotView>,
    p: Seq<char>,
    reason: Seq<char>,
) -> Map<Seq<char>, SlotView> {
    if m.contains_key(p) && m[p] is Pending {
        m.insert(p, SlotView::Failed(reason))
    } else {
        m
    }
}

pub(crate) proof fn lemma_push_contains(s: Seq<Seq<char>>, x: Seq<char>, k: Seq<char>)
    ensures
        s.push(x).contains(k) <==> (s.contains(k) || k == x),
{
    let t = s.push(x);
    if t.contains(k) {
        let i = choose|i: int| 0 <= i < t.len() && t[i] == k;
        if i < s.len() {
            assert(s[i] == k);
        }
    }
    if s.contains(k) {
        let i = choose|i: int| 0 <= i < s.len() && s[i] == k;
        assert(t[i] == k);
    }
    if k == x {
        assert(t[s.len() as int] == x);
    }
}

impl View for StatusMap {
    type V = Map<Seq<char>, SlotView>;

    closed spec fn view(&self) -> Map<Seq<char>, SlotView> {
        self.contents@
    }
}

impl StatusMap {
    /// The number of resets so far; pending slots carry it.
    pub closed spec fn generation(&self) -> u64 {
        self.generation
    }

    /// Number of stored entries.
    pub closed spec fn entry_len(&self) -> int {
        self.entries@.len() as int
    }

    /// Path of the `i`-th stored entry.
    pub closed spec fn entry_path(&self, i: int) -> Seq<char> {
        self.entries@[i].path@
    }

    /// Slot of the `i`-th stored entry.
    pub closed spec fn entry_slot(&self, i: int) -> SlotView {
        self.entries@[i].slot@
    }

    pub closed spec fn wf(&self) -> bool {
        &&& forall|i: int, j: int|
            0 <= i < j < self.entries@.len() ==> self.entries@[i].path@
                != self.entries@[j].path@
        &&& forall|i: int|
            0 <= i < self.entries@.len() ==> self.contents@.contains_key(
                #[trigger] self.entries@[i].path@,
            ) && self.contents@[self.entries@[i].path@] == self.entries@[i].slot@
        &&& forall|k: Seq<char>| #[trigger]
            self.contents@.contains_key(k) ==> exists|i: int|
                0 <= i < self.entries@.len() && self.entries@[i].path@ == k
        &&& forall|k: Seq<char>| #[trigger]
            self.contents@.contains_key(k) && self.contents@[k] is Pending
                ==> self.contents@[k]->Pending_0 == self.generation
    }

    /// An empty map: no directory is open.
    pub fn new() -> (r: StatusMap)
        ensures
            r.wf(),
            r@ == Map::<Seq<char>, SlotView>::empty(),
            r.generation() == 0,
    {
        StatusMap { entries: Vec::new(), generation: 0, contents: Ghost(Map::empty()) }
    }

    fn find(&self, key: &String) -> (r: Option<usize>)
        requires
            self.wf(),
        ensures
            match r {
                Some(i) => i < self.entries@.len() && self.entries@[i as int].path@ == key@,
                None => !self@.contains_key(key@),
            },
    {
        let mut i: usize = 0;
        while i < self.entries.len()
            invariant
                self.wf(),
                i <= self.entries@.len(),
                forall|j: int| 0 <= j < i ==> self.entries@[j].path@ != key@,
            decreases self.entries@.len() - i,
        {
            if self.entries[i].path == *key {
                return Some(i);
            }
            i = i + 1;
        }
        None
    }

    fn insert_if_absent(&mut self, key: &String, slot: Slot)
        requires
            old(self).wf(),
            slot is Pending ==> slot->Pending_0 == old(self).generation,
        ensures
            final(self).wf(),
            final(self).generation == old(self).generation,
            final(self)@ == if old(self)@.contains_key(key@) {
                old(self)@
            } else {
                old(self)@.insert(key@, slot@)
            },
    {
        match self.find(key) {
            Some(_) => {},
            None => {
                let ghost old_self = *self;
                let ghost v = slot@;
                self.entries.push(Entry { path: key.clone(), slot });
                self.contents = Ghost(self.contents@.insert(key@, v));
                assert forall|k: Seq<char>| #[trigger]
                    self.contents@.contains_key(k) implies exists|i: int|
                        0 <= i < self.entries@.len() && self.entries@[i].path@ == k by {
                    if k != key@ {
                        let i = choose|i: int|
                            0 <= i < old_self.entries@.len() && old_self.entries@[i].path@ == k;
                        assert(self.entries@[i] == old_self.entries@[i]);
                    } else {
                        assert(self.entries@[old_self.entries@.len() as int].path@ == k);
                    }
                }
                assert forall|i: int|
                    0 <= i < self.entries@.len() implies self.contents@.contains_key(
                    #[trigger] self.entries@[i].path@,
                ) && self.contents@[self.entries@[i].path@] == self.entries@[i].slot@ by {
                    if i < old_self.entries@.len() {
                        assert(self.entries@[i] == old_self.entries@[i]);
                    }
                }
            },
        }
    }

    /// Opens a new directory: drops every entry, then registers each path of
    /// `pending` with a fresh primitive and each other path of `ready` as
    /// `Ready`. Refuses, leaving the map as it is, only once the generation
    /// counter is exhausted.
    pub fn reset(&mut self, pending: &Vec<String>, ready: &Vec<String>) -> (ok: bool)
        requires
            old(self).wf(),
        ensures
            final(self).wf(),
            ok == (old(self).generation() < u64::MAX),
            ok ==> final(self).generation() == old(self).generation() + 1 && final(self)@
                == reset_view(string_views(pending@), string_views(ready@), final(self).generation()),
            !ok ==> final(self)@ == old(self)@ && final(self).generation() == old(self).generation(),
    {
        if self.generation == u64::MAX {
            return false;
        }
        let g = self.generation + 1;
        self.entries = Vec::new();
        self.generation = g;
        self.contents = Ghost(Map::empty());
        assert(self@ =~= reset_view(string_views(pending@.subrange(0, 0)), Seq::empty(), g));
        let mut i: usize = 0;
        while i < pending.len()
            invariant
                self.wf(),
                self.generation == g,
                i <= pending@.len(),
                self@ == reset_view(string_views(pending@.subrange(0, i as int)), Seq::empty(), g),
            decreases pending@.len() - i,
        {
            let ghost before = self@;
            self.insert_if_absent(&pending[i], Slot::Pending(g));
            let ghost prev = string_views(pending@.subrange(0, i as int));
            let ghost next = string_views(pending@.subrange(0, i + 1));
            assert(next =~= prev.push(pending@[i as int]@));
            assert forall|k: Seq<char>|
                #[trigger] next.contains(k) <==> (prev.contains(k) || k == pending@[i as int]@) by {
                lemma_push_contains(prev, pending@[i as int]@, k);
            }
            assert(self@ =~= reset_view(next, Seq::empty(), g));
            i = i + 1;
        }
        assert(pending@.subrange(0, pending@.len() as int) =~= pending@);
        let mut j: usize = 0;
        while j < ready.len()
            invariant
                self.wf(),
                self.generation == g,
                j <= ready@.len(),
                self@ == reset_view(
                    string_views(pending@),
                    string_views(ready@.subrange(0, j as int)),
                    g,
                ),
            decreases ready@.len() - j,
        {
            self.insert_if_absent(&ready[j], Slot::Ready);
            let ghost prev = string_views(ready@.subrange(0, j as int));
            let ghost next = string_views(ready@.subrange(0, j + 1));
            assert(next =~= prev.push(ready@[j as int]@));
            assert forall|k: Seq<char>|
                #[trigger] next.contains(k) <==> (prev.contains(k) || k == ready@[j as int]@) by {
                lemma_push_contains(prev, ready@[j as int]@, k);
            }
            assert(self@ =~= reset_view(
                string_views(pending@),
                string_views(ready@.subrange(0, j + 1)),
                g,
            ));
            j = j + 1;
        }
        assert(ready@.subrange(0, ready@.len() as int) =~= ready@);
        true
    }

    fn set_slot(&mut self, i: usize, slot: Slot)
        requires
            old(self).wf(),
            i < old(self).entries@.len(),
            !(slot is Pending),
        ensures
            final(self).wf(),
            final(self).generation == old(self).generation,
            final(self)@ == old(self)@.insert(old(self).entries@[i as int].path@, slot@),
    {
        let ghost old_self = *self;
        let ghost v = slot@;
        let path = self.entries[i].path.clone();
        let ghost key = path@;
        self.entries.set(i, Entry { path, slot });
        self.contents = Ghost(self.contents@.insert(key, v));
        assert forall|k: Seq<char>| #[trigger]
            self.contents@.contains_key(k) implies exists|j: int|
                0 <= j < self.entries@.len() && self.entries@[j].path@ == k by {
            let j = choose|j: int| 0 <= j < old_self.entries@.len() && old_self.entries@[j].path@ == k;
            assert(self.entries@[j].path@ == k);
        }
        assert forall|j: int|
            0 <= j < self.entries@.len() implies self.contents@.contains_key(
            #[trigger] self.entries@[j].path@,
        ) && self.contents@[self.entries@[j].path@] == self.entries@[j].slot@ by {
            if j != i {
                assert(self.entries@[j] == old_self.entries@[j]);
            }
        }
    }

    /// What a reader finds for `path`: untracked, pending on a primitive,
    /// ready, or failed.
    pub fn lookup(&self, path: &str) -> (r: Lookup)
        requires
            self.wf(),
        ensures
            match r {
                Lookup::NotTracked => !self@.contains_key(path@),
                Lookup::Pending(g) => self@.contains_key(path@) && self@[path@]
                    == SlotView::Pending(g),
                Lookup::ReadyNow => self@.contains_key(path@) && self@[path@] == SlotView::Ready,
                Lookup::Failed(reason) => self@.contains_key(path@) && self@[path@]
                    == SlotView::Failed(reason@),
            },
    {
        let key = String::from_str(path);
        match self.find(&key) {
            None => Lookup::NotTracked,
            Some(i) => match &self.entries[i].slot {
                Slot::Pending(g) => Lookup::Pending(*g),
                Slot::Ready => Lookup::ReadyNow,
                Slot::Failed(reason) => Lookup::Failed(reason.clone()),
            },
        }
    }

    /// Whether `path` is registered for the open directory.
    pub fn contains(&self, path: &str) -> (r: bool)
        requires
            self.wf(),
        ensures
            r == self@.contains_key(path@),
    {
        let key = String::from_str(path);
        self.find(&key).is_some()
    }

    /// Marks the preview at `path` as generated. A path that is not tracked
    /// (the directory changed) is left untracked.
    pub fn mark_ready(&mut self, path: &str)
        requires
            old(self).wf(),
        ensures
            final(self).wf(),
            final(self).generation() == old(self).generation(),
            final(self)@ == mark_ready_view(old(self)@, path@),
    {
        let key = String::from_str(path);
        if let Some(i) = self.find(&key) {
            self.set_slot(i, Slot::Ready);
        }
    }

    /// Records that generation of the preview at `path` failed. Only a pending
    /// path changes.
    pub fn mark_failed(&mut self, path: &str, reason: String)
        requires
            old(self).wf(),
        ensures
            final(self).wf(),
            final(self).generation() == old(self).generation(),
            final(self)@ == mark_failed_view(old(self)@, path@, reason@),
    {
        let key = String::from_str(path);
        if let Some(i) = self.find(&key) {
            if let Slot::Pending(_) = &self.entries[i].slot {
                self.set_slot(i, Slot::Failed(reason));
            }
        }
    }
}

/// At any instant at most one wakeup primitive is associated with a path: the
/// map stores at most one entry per path, its slot is the path's value, and a
/// pending slot holds the primitive of the current generation.
pub proof fn lemma_one_primitive_per_path(m: &StatusMap, p: Seq<char>, i: int, j: int)
    requires
        m.wf(),
        0 <= i < m.entry_len(),
        0 <= j < m.entry_len(),
        m.entry_path(i) == p,
        m.entry_path(j) == p,
    ensures
        i == j,
        m@.contains_key(p),
        m.entry_slot(i) == m@[p],
        m@[p] is Pending ==> m@[p]->Pending_0 == m.generation(),
{
    if i < j {
        assert(m.entries@[i].path@ != m.entries@[j].path@);
    } else if j < i {
        assert(m.entries@[j].path@ != m.entries@[i].path@);
    }
    assert(m.contents@.contains_key(m.entries@[i].path@));
}

/// In a well-formed map every pending slot carries the primitive of the
/// current generation.
pub proof fn lemma_pending_carries_generation(m: &StatusMap, p: Seq<char>)
    requires
        m.wf(),
        m@.contains_key(p),
        m@[p] is Pending,
    ensures
        m@[p]->Pending_0 == m.generation(),
{
}

/// No reset reuses a primitive: a primitive pending after a reset differs from
/// every primitive pending in the map before it, whatever the paths.
pub proof fn lemma_reset_never_reuses_primitive(
    before: &StatusMap,
    pending: Seq<Seq<char>>,
    ready: Seq<Seq<char>>,
    p: Seq<char>,
    q: Seq<char>,
)
    requires
        before.wf(),
        before.generation() < u64::MAX,
        before@.contains_key(q),
        before@[q] is Pending,
        reset_view(pending, ready, (before.generation() + 1) as u64).contains_key(p),
        reset_view(pending, ready, (before.generation() + 1) as u64)[p] is Pending,
    ensures
        reset_view(pending, ready, (before.generation() + 1) as u64)[p]->Pending_0
            != before@[q]->Pending_0,
{
}

/// A reset hands out primitives that no earlier reset handed out: every pending
/// slot afterwards belongs to a generation later than all before it.
pub proof fn lemma_reset_primitives_fresh(
    pending: Seq<Seq<char>>,
    ready: Seq<Seq<char>>,
    old_generation: u64,
    g: u64,
    p: Seq<char>,
)
    requires
        g == old_generation + 1,
        reset_view(pending, ready, g).contains_key(p),
        reset_view(pending, ready, g)[p] is Pending,
    ensures
        reset_view(pending, ready, g)[p]->Pending_0 > old_generation,
{
}

/// A job of a directory that is no longer open changes nothing: after a reset
/// to a new directory, completing or failing a path that the new directory does
/// not register leaves the map as the reset made it, and the path untracked.
pub proof fn lemma_bail_out(
    pending: Seq<Seq<char>>,
    ready: Seq<Seq<char>>,
    g: u64,
    p: Seq<char>,
    reason: Seq<char>,
)
    requires
        !pending.contains(p),
        !ready.contains(p),
    ensures
        mark_ready_view(reset_view(pending, ready, g), p) == reset_view(pending, ready, g),
        mark_failed_view(reset_view(pending, ready, g), p, reason) == reset_view(
            pending,
            ready,
            g,
        ),
        !mark_ready_view(reset_view(pending, ready, g), p).contains_key(p),
{
}

/// Marking a path ready twice is the same as marking it once, and marking an
/// already ready path changes nothing.
pub proof fn lemma_mark_ready_idempotent(m: Map<Seq<char>, SlotView>, p: Seq<char>)
    ensures
        mark_ready_view(mark_ready_view(m, p), p) == mark_ready_view(m, p),
        m.contains_key(p) && m[p] == SlotView::Ready ==> mark_ready_view(m, p) == m,
{
    if m.contains_key(p) {
        assert(m.insert(p, SlotView::Ready).insert(p, SlotView::Ready) =~= m.insert(
            p,
            SlotView::Ready,
        ));
        if m[p] == SlotView::Ready {
            assert(m.insert(p, SlotView::Ready) =~= m);
        }
    }
}

} // verus!
