use vstd::prelude::*;
use vstd::multiset::*;
use vstd::seq_lib::*;

verus! {

broadcast use {vstd::multiset::group_multiset_axioms, vstd::seq_lib::group_to_multiset_ensures};

/// The disposition a user gave an image.
#[derive(Clone, Copy, Debug, PartialEq, Eq, Structural)]
pub enum CullState {
    New,
    Selected,
    Rejected,
}

impl Default for CullState {
    fn default() -> (r: CullState)
        ensures
            r == CullState::New,
    {
        CullState::New
    }
}

/// A point in time as seconds and nanoseconds since the Unix epoch.
#[derive(Clone, Copy, Debug, PartialEq, Eq, Structural)]
pub struct Timestamp {
    pub secs: i64,
    pub nanos: u32,
}

/// `a` is not later than `b`.
pub open spec fn ts_le(a: Timestamp, b: Timestamp) -> bool {
    a.secs < b.secs || (a.secs == b.secs && a.nanos <= b.nanos)
}

impl Timestamp {
    /// Whether `self` is not later than `other`.
    pub fn not_after(&self, other: &Timestamp) -> (r: bool)
        ensures
            r == ts_le(*self, *other),
    {
        self.secs < other.secs || (self.secs == other.secs && self.nanos <= other.nanos)
    }
}

/// An image of the open directory.
#[derive(Clone, Debug)]
pub struct Image {
    /// The source file.
    pub path: String,
    /// Where its preview lives.
    pub preview_path: String,
    /// The earlier of the file's creation and modification times.
    pub created: Timestamp,
    pub state: CullState,
}

/// Images in order of creation.
pub open spec fn sorted_by_created(s: Seq<Image>) -> bool {
    forall|i: int, j: int| 0 <= i < j < s.len() ==> ts_le(s[i].created, s[j].created)
}

/// Why a directory cannot be opened.
#[derive(Clone, Copy, Debug, PartialEq, Eq, Structural)]
pub enum OpenError {
    /// The directory holds no image.
    NoImages,
}

/// Where `t` goes in `s`: after the last image, counted from the back, that
/// is not later than `t`.
pub open spec fn insert_pos(s: Seq<Image>, t: Timestamp) -> int
    decreases s.len(),
{
    if s.len() == 0 {
        0
    } else if ts_le(s.last().created, t) {
        s.len() as int
    } else {
        insert_pos(s.drop_last(), t)
    }
}

/// The images stably sorted by creation time: each image, in input order,
/// goes after every earlier image that is not later than it.
pub open spec fn sorted_by_created_spec(s: Seq<Image>) -> Seq<Image>
    decreases s.len(),
{
    if s.len() == 0 {
        s
    } else {
        let prev = sorted_by_created_spec(s.drop_last());
        prev.insert(insert_pos(prev, s.last().created), s.last())
    }
}

proof fn lemma_insert_pos(s: Seq<Image>, t: Timestamp)
    ensures
        0 <= insert_pos(s, t) <= s.len(),
        forall|k: int| insert_pos(s, t) <= k < s.len() ==> !ts_le(s[k].created, t),
        insert_pos(s, t) > 0 ==> ts_le(s[insert_pos(s, t) - 1].created, t),
    decreases s.len(),
{
    if s.len() > 0 && !ts_le(s.last().created, t) {
        let d = s.drop_last();
        lemma_insert_pos(d, t);
        assert forall|k: int| insert_pos(s, t) <= k < s.len() implies !ts_le(s[k].created, t) by {
            if k < d.len() {
                assert(s[k] == d[k]);
            }
        }
        if insert_pos(s, t) > 0 {
            assert(s[insert_pos(s, t) - 1] == d[insert_pos(s, t) - 1]);
        }
    }
}

proof fn lemma_sorted_spec(s: Seq<Image>)
    ensures
        sorted_by_created(sorted_by_created_spec(s)),
        sorted_by_created_spec(s).to_multiset() == s.to_multiset(),
    decreases s.len(),
{
    if s.len() > 0 {
        let d = s.drop_last();
        let x = s.last();
        let prev = sorted_by_created_spec(d);
        lemma_sorted_spec(d);
        lemma_insert_pos(prev, x.created);
        let p = insert_pos(prev, x.created);
        let r = prev.insert(p, x);
        assert forall|i: int, j: int| 0 <= i < j < r.len() implies ts_le(
            r[i].created,
            r[j].created,
        ) by {
            if j < p {
                assert(r[i] == prev[i] && r[j] == prev[j]);
            } else if j == p {
                assert(r[i] == prev[i]);
                assert(ts_le(prev[i].created, prev[p - 1].created) || i == p - 1);
            } else if i < p {
                assert(r[i] == prev[i] && r[j] == prev[j - 1]);
                assert(!ts_le(prev[j - 1].created, x.created));
                assert(ts_le(prev[i].created, prev[p - 1].created) || i == p - 1);
            } else if i == p {
                assert(r[j] == prev[j - 1]);
                assert(!ts_le(prev[j - 1].created, x.created));
            } else {
                assert(r[i] == prev[i - 1] && r[j] == prev[j - 1]);
            }
        }
        to_multiset_insert(prev, p, x);
        to_multiset_build(d, x);
        assert(d.push(x) =~= s);
    }
}

/// The images stably ordered by creation time: images created at the same
/// time keep their relative order.
pub fn sort_by_created(images: Vec<Image>) -> (r: Vec<Image>)
    ensures
        r@ == sorted_by_created_spec(images@),
        sorted_by_created(r@),
        r@.to_multiset() == images@.to_multiset(),
{
    let ghost input = images@;
    let n = images.len();
    let mut rest = images;
    let mut out: Vec<Image> = Vec::new();
    let mut i: usize = 0;
    assert(input.subrange(0, 0) =~= Seq::<Image>::empty());
    assert(rest@ =~= input.subrange(0, n as int));
    while i < n
        invariant
            n == input.len(),
            i <= n,
            rest@ == input.subrange(i as int, n as int),
            out@ == sorted_by_created_spec(input.subrange(0, i as int)),
        decreases n - i,
    {
        let x = rest.remove(0);
        assert(x == input[i as int]);
        let ghost prefix = input.subrange(0, i + 1);
        assert(prefix.drop_last() =~= input.subrange(0, i as int));
        assert(prefix.last() == x);
        let mut k: usize = out.len();
        assert(out@.subrange(0, k as int) =~= out@);
        while k > 0 && !out[k - 1].created.not_after(&x.created)
            invariant
                k <= out@.len(),
                insert_pos(out@, x.created) == insert_pos(out@.subrange(0, k as int), x.created),
            decreases k,
        {
            assert(out@.subrange(0, k - 1) =~= out@.subrange(0, k as int).drop_last());
            k = k - 1;
        }
        assert(insert_pos(out@, x.created) == k) by {
            if k > 0 {
                assert(out@.subrange(0, k as int).last() == out@[k - 1]);
            }
        }
        out.insert(k, x);
        assert(rest@ =~= input.subrange(i + 1, n as int));
        i = i + 1;
    }
    assert(input.subrange(0, n as int) =~= input);
    proof {
        lemma_sorted_spec(input);
    }
    out
}

/// The images of a directory being opened, in order of creation; refused when
/// there are none.
pub fn open_images(images: Vec<Image>) -> (r: Result<Vec<Image>, OpenError>)
    ensures
        images@.len() == 0 ==> r == Err::<Vec<Image>, OpenError>(OpenError::NoImages),
        images@.len() > 0 ==> r is Ok && r->Ok_0@ == sorted_by_created_spec(images@)
            && sorted_by_created(r->Ok_0@) && r->Ok_0@.to_multiset() == images@.to_multiset(),
{
    if images.len() == 0 {
        return Err(OpenError::NoImages);
    }
    Ok(sort_by_created(images))
}

} // verus!
