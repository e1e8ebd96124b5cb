use vstd::prelude::*;
use vstd::string::*;
use crate::image::Image;
use crate::status::{
    lemma_push_contains, mark_failed_view, mark_ready_view, reset_view, string_views, SlotView,
    StatusMap,
};

verus! {

/// The order in which a batch's jobs are started: the most recently
/// enumerated image first, then the others in arrival order.
pub open spec fn schedule_order_spec<T>(batch: Seq<T>) -> Seq<T> {
    if batch.len() == 0 {
        batch
    } else {
        seq![batch.last()] + batch.drop_last()
    }
}

/// Orders a batch for scheduling: its last job first, then the rest as they came.
pub fn schedule_order<T>(batch: Vec<T>) -> (r: Vec<T>)
    ensures
        r@ == schedule_order_spec(batch@),
{
    let mut batch = batch;
    match batch.pop() {
        None => batch,
        Some(last) => {
            let ghost rest = batch@;
            batch.insert(0, last);
            assert(batch@ =~= seq![last] + rest);
            batch
        },
    }
}

/// Cores left free so that the machine stays responsive.
pub const RESERVED_CORES: usize = 3;

/// The number of generation workers for a machine with `physical` cores.
pub open spec fn pool_size_spec(physical: int) -> int {
    if physical - RESERVED_CORES >= 1 {
        physical - RESERVED_CORES
    } else {
        1
    }
}

/// `max(1, physical - 3)`, without underflow.
pub fn pool_size(physical: usize) -> (r: usize)
    ensures
        r as int == pool_size_spec(physical as int),
        r >= 1,
{
    if physical > RESERVED_CORES + 1 {
        physical - RESERVED_CORES
    } else {
        1
    }
}

/// Relies on num_cpus::get_physical, documented to return at least 1.
#[verifier::external_body]
fn physical_cores() -> (r: usize)
    ensures
        r >= 1,
{
    num_cpus::get_physical()
}

/// The size of the generation pool on this machine: at least one worker, and
/// three cores left free where there are enough.
pub fn worker_count() -> (r: usize)
    ensures
        r >= 1,
{
    pool_size(physical_cores())
}

/// What a worker does with a job it picked up.
#[derive(Clone, Copy, Debug, PartialEq, Eq, Structural)]
pub enum JobStep {
    /// The path is no longer tracked: the open directory changed. Abandon the
    /// job without side effects.
    BailOut,
    /// The preview file is already there: mark it ready.
    AlreadyPresent,
    /// Generate the preview, then record the outcome.
    Generate,
}

pub open spec fn job_step_spec(registered: bool, preview_exists: bool) -> JobStep {
    if !registered {
        JobStep::BailOut
    } else if preview_exists {
        JobStep::AlreadyPresent
    } else {
        JobStep::Generate
    }
}

/// Decides a job from the current map and whether its preview file exists.
pub fn plan_job(map: &StatusMap, preview_path: &str, preview_exists: bool) -> (r: JobStep)
    requires
        map.wf(),
    ensures
        r == job_step_spec(map@.contains_key(preview_path@), preview_exists),
{
    if !map.contains(preview_path) {
        JobStep::BailOut
    } else if preview_exists {
        JobStep::AlreadyPresent
    } else {
        JobStep::Generate
    }
}

/// A failed conversion: the preview it was for and the tool's diagnostic.
pub struct GenerationError {
    pub path: String,
    pub diagnostic: String,
}

/// Records a job's outcome: success marks the path ready, failure marks it
/// failed with the diagnostic. An untracked path stays untracked.
pub fn complete_job(map: &mut StatusMap, preview_path: &str, outcome: Result<(), GenerationError>)
    requires
        old(map).wf(),
    ensures
        final(map).wf(),
        final(map).generation() == old(map).generation(),
        final(map)@ == match outcome {
            Ok(_) => mark_ready_view(old(map)@, preview_path@),
            Err(e) => mark_failed_view(old(map)@, preview_path@, e.diagnostic@),
        },
{
    match outcome {
        Ok(()) => map.mark_ready(preview_path),
        Err(e) => map.mark_failed(preview_path, e.diagnostic),
    }
}

/// The arguments of the image conversion tool for one job: auto-orient,
/// shrink only to fit 2000x1400 keeping the aspect, one thread.
pub open spec fn conversion_args_spec(source: Seq<char>, dest: Seq<char>) -> Seq<Seq<char>> {
    seq![
        source,
        "-auto-orient"@,
        "-resize"@,
        "2000x1400>"@,
        "-limit"@,
        "thread"@,
        "1"@,
        dest,
    ]
}

/// The command-line arguments that convert `source` into the preview `dest`.
pub fn conversion_args(source: &str, dest: &str) -> (r: Vec<String>)
    ensures
        string_views(r@) == conversion_args_spec(source@, dest@),
{
    let mut r: Vec<String> = Vec::new();
    r.push(String::from_str(source));
    r.push(String::from_str("-auto-orient"));
    r.push(String::from_str("-resize"));
    r.push(String::from_str("2000x1400>"));
    r.push(String::from_str("-limit"));
    r.push(String::from_str("thread"));
    r.push(String::from_str("1"));
    r.push(String::from_str(dest));
    assert(string_views(r@) =~= conversion_args_spec(source@, dest@));
    r
}

/// Preview paths of the images whose preview file does not exist yet.
pub open spec fn missing_previews(images: Seq<Image>, exists: Seq<bool>) -> Seq<Seq<char>>
    decreases images.len(),
{
    if images.len() == 0 {
        Seq::empty()
    } else {
        let rest = missing_previews(images.drop_last(), exists);
        if exists[images.len() - 1] {
            rest
        } else {
            rest.push(images.last().preview_path@)
        }
    }
}

/// Preview paths of the images whose preview file exists already.
pub open spec fn present_previews(images: Seq<Image>, exists: Seq<bool>) -> Seq<Seq<char>>
    decreases images.len(),
{
    if images.len() == 0 {
        Seq::empty()
    } else {
        let rest = present_previews(images.drop_last(), exists);
        if exists[images.len() - 1] {
            rest.push(images.last().preview_path@)
        } else {
            rest
        }
    }
}

/// Splits a directory's images by whether their preview file exists
/// (`exists[i]` for `images[i]`): the paths to generate, then the paths that
/// are ready, each in the images' order.
pub fn registrations(images: &Vec<Image>, exists: &Vec<bool>) -> (r: (Vec<String>, Vec<String>))
    requires
        exists@.len() == images@.len(),
    ensures
        string_views(r.0@) == missing_previews(images@, exists@),
        string_views(r.1@) == present_previews(images@, exists@),
{
    let mut pending: Vec<String> = Vec::new();
    let mut ready: Vec<String> = Vec::new();
    let mut i: usize = 0;
    while i < images.len()
        invariant
            i <= images@.len(),
            exists@.len() == images@.len(),
            string_views(pending@) == missing_previews(
                images@.subrange(0, i as int),
                exists@,
            ),
            string_views(ready@) == present_previews(
                images@.subrange(0, i as int),
                exists@,
            ),
        decreases images@.len() - i,
    {
        let ghost prefix = images@.subrange(0, i + 1);
        assert(prefix.drop_last() =~= images@.subrange(0, i as int));
        assert(prefix.last() == images@[i as int]);
        if exists[i] {
            ready.push(images[i].preview_path.clone());
        } else {
            pending.push(images[i].preview_path.clone());
        }
        assert(string_views(pending@) =~= missing_previews(prefix, exists@));
        assert(string_views(ready@) =~= present_previews(prefix, exists@));
        i = i + 1;
    }
    assert(images@.subrange(0, images@.len() as int) =~= images@);
    (pending, ready)
}

proof fn lemma_split_contains(images: Seq<Image>, exists: Seq<bool>, p: Seq<char>)
    requires
        exists.len() >= images.len(),
    ensures
        missing_previews(images, exists).contains(p) <==> (exists|i: int|
            0 <= i < images.len() && images[i].preview_path@ == p && !exists[i]),
        present_previews(images, exists).contains(p) <==> (exists|i: int|
            0 <= i < images.len() && images[i].preview_path@ == p && exists[i]),
    decreases images.len(),
{
    if images.len() > 0 {
        let d = images.drop_last();
        let last = images.len() - 1;
        lemma_split_contains(d, exists, p);
        lemma_push_contains(missing_previews(d, exists), images.last().preview_path@, p);
        lemma_push_contains(present_previews(d, exists), images.last().preview_path@, p);
        if exists|i: int| 0 <= i < images.len() && images[i].preview_path@ == p && !exists[i] {
            let i = choose|i: int|
                0 <= i < images.len() && images[i].preview_path@ == p && !exists[i];
            if i < last {
                assert(d[i] == images[i]);
            }
        }
        if exists|i: int| 0 <= i < images.len() && images[i].preview_path@ == p && exists[i] {
            let i = choose|i: int| 0 <= i < images.len() && images[i].preview_path@ == p && exists[i];
            if i < last {
                assert(d[i] == images[i]);
            }
        }
        if exists|i: int| 0 <= i < d.len() && d[i].preview_path@ == p && !exists[i] {
            let i = choose|i: int| 0 <= i < d.len() && d[i].preview_path@ == p && !exists[i];
            assert(images[i] == d[i]);
        }
        if exists|i: int| 0 <= i < d.len() && d[i].preview_path@ == p && exists[i] {
            let i = choose|i: int| 0 <= i < d.len() && d[i].preview_path@ == p && exists[i];
            assert(images[i] == d[i]);
        }
    }
}

/// Opening a directory registers exactly its images: after a reset with the
/// split that [`registrations`] computes, a path is tracked iff it is the
/// preview path of an image; it waits on the new primitive iff some image with
/// that preview path has no preview file yet, and is ready otherwise.
pub proof fn lemma_open_registers_images(
    images: Seq<Image>,
    exists: Seq<bool>,
    g: u64,
    p: Seq<char>,
)
    requires
        exists.len() == images.len(),
    ensures
        reset_view(missing_previews(images, exists), present_previews(images, exists), g).contains_key(
            p,
        ) <==> (exists|i: int| 0 <= i < images.len() && images[i].preview_path@ == p),
        (exists|i: int| 0 <= i < images.len() && images[i].preview_path@ == p && !exists[i])
            ==> reset_view(missing_previews(images, exists), present_previews(images, exists), g)[p]
            == SlotView::Pending(g),
        (forall|i: int| 0 <= i < images.len() && images[i].preview_path@ == p ==> exists[i])
            && (exists|i: int| 0 <= i < images.len() && images[i].preview_path@ == p)
            ==> reset_view(missing_previews(images, exists), present_previews(images, exists), g)[p]
            == SlotView::Ready,
{
    lemma_split_contains(images, exists, p);
    if exists|i: int| 0 <= i < images.len() && images[i].preview_path@ == p {
        let i = choose|i: int| 0 <= i < images.len() && images[i].preview_path@ == p;
        if exists[i] {
            assert(present_previews(images, exists).contains(p));
        } else {
            assert(missing_previews(images, exists).contains(p));
        }
    }
}

} // verus!
