use chrono::Datelike;
use vstd::prelude::*;
use vstd::string::*;
use crate::image::{ts_le, CullState, Image, Timestamp};
use crate::paths::{file_name, file_name_of, has_file_name, is_sep, sep_style, separator_of};

verus! {

/// Whether a sidecar must be rewritten to record `requested`.
pub fn needs_write(current: CullState, requested: CullState) -> (r: bool)
    ensures
        r == (current != requested),
{
    current != requested
}

/// Why culling cannot be finished.
pub enum FinishError {
    /// The directory holds no image.
    NoImages,
    /// Some image still has no disposition.
    Unprocessed,
    /// The earliest image's time has no calendar date.
    InvalidDate,
    /// A selected image's path names no file.
    InvalidFilename(String),
}

/// A file operation that finishing the culling performs.
pub enum FileAction {
    /// Move a selected image into the edit folder.
    Move { from: String, to: String },
    /// Send a rejected image to the trash.
    Trash(String),
}

pub enum FileActionView {
    Move(Seq<char>, Seq<char>),
    Trash(Seq<char>),
}

impl View for FileAction {
    type V = FileActionView;

    open spec fn view(&self) -> FileActionView {
        match self {
            FileAction::Move { from, to } => FileActionView::Move(from@, to@),
            FileAction::Trash(p) => FileActionView::Trash(p@),
        }
    }
}

pub open spec fn any_new(images: Seq<Image>) -> bool {
    exists|i: int| 0 <= i < images.len() && images[i].state == CullState::New
}

/// `t` is the creation time of an image and no image is older.
pub open spec fn is_earliest(images: Seq<Image>, t: Timestamp) -> bool {
    &&& exists|i: int| 0 <= i < images.len() && images[i].created == t
    &&& forall|i: int| 0 <= i < images.len() ==> ts_le(t, #[trigger] images[i].created)
}

/// Checks that culling can be finished, and returns the creation time of the
/// earliest image.
pub fn check_finish(images: &Vec<Image>) -> (r: Result<Timestamp, FinishError>)
    ensures
        images@.len() == 0 ==> r is Err && r->Err_0 is NoImages,
        images@.len() > 0 && any_new(images@) ==> r is Err && r->Err_0 is Unprocessed,
        images@.len() > 0 && !any_new(images@) ==> r is Ok && is_earliest(images@, r->Ok_0),
{
    if images.len() == 0 {
        return Err(FinishError::NoImages);
    }
    let mut earliest = images[0].created;
    let ghost mut at: int = 0;
    let mut i: usize = 0;
    while i < images.len()
        invariant
            i <= images@.len(),
            0 <= at < images@.len(),
            images@[at].created == earliest,
            forall|j: int| 0 <= j < i ==> images@[j].state != CullState::New,
            forall|j: int| 0 <= j < i ==> ts_le(earliest, #[trigger] images@[j].created),
        decreases images@.len() - i,
    {
        if images[i].state == CullState::New {
            return Err(FinishError::Unprocessed);
        }
        if !earliest.not_after(&images[i].created) {
            earliest = images[i].created;
            proof {
                at = i as int;
            }
        }
        i = i + 1;
    }
    Ok(earliest)
}

/// The decimal digit `d`.
pub open spec fn digit_char(d: int) -> char {
    seq!['0', '1', '2', '3', '4', '5', '6', '7', '8', '9'][d]
}

/// The decimal numeral of `n`, without leading zeros.
pub open spec fn decimal(n: nat) -> Seq<char>
    decreases n,
{
    if n < 10 {
        seq![digit_char(n as int)]
    } else {
        decimal(n / 10).push(digit_char((n % 10) as int))
    }
}

fn digit_str(d: u32) -> (r: &'static str)
    requires
        d < 10,
    ensures
        r@ == seq![digit_char(d as int)],
{
    proof {
        reveal_strlit("0");
        reveal_strlit("1");
        reveal_strlit("2");
        reveal_strlit("3");
        reveal_strlit("4");
        reveal_strlit("5");
        reveal_strlit("6");
        reveal_strlit("7");
        reveal_strlit("8");
        reveal_strlit("9");
    }
    let r = match d {
        0 => "0",
        1 => "1",
        2 => "2",
        3 => "3",
        4 => "4",
        5 => "5",
        6 => "6",
        7 => "7",
        8 => "8",
        _ => "9",
    };
    assert(r@ =~= seq![digit_char(d as int)]);
    r
}

/// The decimal numeral of `n`.
pub fn decimal_string(n: u32) -> (r: String)
    ensures
        r@ == decimal(n as nat),
    decreases n,
{
    if n < 10 {
        String::from_str(digit_str(n))
    } else {
        let mut s = decimal_string(n / 10);
        s.append(digit_str(n % 10));
        s
    }
}

/// `comp` appended to `base` as one more path component, with the separator
/// that `base` uses.
pub open spec fn join_spec(base: Seq<char>, comp: Seq<char>) -> Seq<char> {
    if base.len() == 0 || is_sep(base.last()) {
        base + comp
    } else {
        base + seq![sep_style(base)] + comp
    }
}

pub fn join(base: &str, comp: &str) -> (r: String)
    ensures
        r@ == join_spec(base@, comp@),
{
    let n = base.unicode_len();
    let mut r = String::from_str(base);
    proof {
        reveal_strlit("/");
        reveal_strlit("\\");
    }
    if n > 0 && !(base.get_char(n - 1) == '/' || base.get_char(n - 1) == '\\') {
        let sep = if separator_of(base) == '\\' {
            "\\"
        } else {
            "/"
        };
        assert(sep@ =~= seq![sep_style(base@)]);
        r.append(sep);
    }
    r.append(comp);
    assert(r@ =~= join_spec(base@, comp@));
    r
}

/// The edit folder of a culled directory: `<base>/<year>/Q<month / 4 + 1>/<name>`,
/// with the separator that `<base>` uses.
pub open spec fn edit_folder_spec(base: Seq<char>, year: nat, month: nat, name: Seq<char>) -> Seq<
    char,
> {
    join_spec(join_spec(join_spec(base, decimal(year)), seq!['Q'] + decimal(month / 4 + 1)), name)
}

pub fn edit_folder(base: &str, year: u32, month: u32, name: &str) -> (r: String)
    ensures
        r@ == edit_folder_spec(base@, year as nat, month as nat, name@),
{
    let y = decimal_string(year);
    let mut q = String::from_str("Q");
    proof {
        reveal_strlit("Q");
    }
    let digits = decimal_string(month / 4 + 1);
    q.append(digits.as_str());
    assert(q@ =~= seq!['Q'] + decimal((month / 4 + 1) as nat));
    let a = join(base, y.as_str());
    let b = join(a.as_str(), q.as_str());
    join(b.as_str(), name)
}

/// The file operations for the images, in their order: selected images move
/// into `folder`, rejected ones go to the trash, new ones stay. Fails with the
/// path of the first selected image whose path names no file.
pub open spec fn actions_spec(images: Seq<Image>, folder: Seq<char>) -> Result<
    Seq<FileActionView>,
    Seq<char>,
>
    decreases images.len(),
{
    if images.len() == 0 {
        Ok(Seq::empty())
    } else {
        match actions_spec(images.drop_last(), folder) {
            Err(p) => Err(p),
            Ok(acts) => {
                let img = images.last();
                match img.state {
                    CullState::New => Ok(acts),
                    CullState::Selected => if has_file_name(img.path@) {
                        Ok(
                            acts.push(
                                FileActionView::Move(
                                    img.path@,
                                    join_spec(folder, file_name_of(img.path@)),
                                ),
                            ),
                        )
                    } else {
                        Err(img.path@)
                    },
                    CullState::Rejected => Ok(acts.push(FileActionView::Trash(img.path@))),
                }
            },
        }
    }
}

proof fn lemma_actions_err_extends(images: Seq<Image>, folder: Seq<char>, i: int, p: Seq<char>)
    requires
        0 <= i <= images.len(),
        actions_spec(images.subrange(0, i), folder) == Err::<Seq<FileActionView>, Seq<char>>(p),
    ensures
        actions_spec(images, folder) == Err::<Seq<FileActionView>, Seq<char>>(p),
    decreases images.len() - i,
{
    if i < images.len() {
        let next = images.subrange(0, i + 1);
        assert(next.drop_last() =~= images.subrange(0, i));
        lemma_actions_err_extends(images, folder, i + 1, p);
    } else {
        assert(images.subrange(0, i) =~= images);
    }
}

/// The file operations that finish the culling, as [`actions_spec`] states them.
pub fn file_actions(images: &Vec<Image>, folder: &str) -> (r: Result<Vec<FileAction>, String>)
    ensures
        match r {
            Ok(acts) => actions_spec(images@, folder@) == Ok::<Seq<FileActionView>, Seq<char>>(
                acts@.map_values(|a: FileAction| a@),
            ),
            Err(p) => actions_spec(images@, folder@) == Err::<Seq<FileActionView>, Seq<char>>(
                p@,
            ),
        },
{
    let mut acts: Vec<FileAction> = Vec::new();
    let mut i: usize = 0;
    assert(images@.subrange(0, 0) =~= Seq::<Image>::empty());
    assert(acts@.map_values(|a: FileAction| a@) =~= Seq::<FileActionView>::empty());
    while i < images.len()
        invariant
            i <= images@.len(),
            actions_spec(images@.subrange(0, i as int), folder@) == Ok::<
                Seq<FileActionView>,
                Seq<char>,
            >(acts@.map_values(|a: FileAction| a@)),
        decreases images@.len() - i,
    {
        let ghost prefix = images@.subrange(0, i + 1);
        assert(prefix.drop_last() =~= images@.subrange(0, i as int));
        assert(prefix.last() == images@[i as int]);
        let img = &images[i];
        match img.state {
            CullState::New => {},
            CullState::Selected => match file_name(img.path.as_str()) {
                Some(name) => {
                    let to = join(folder, name.as_str());
                    acts.push(FileAction::Move { from: img.path.clone(), to });
                },
                None => {
                    proof {
                        lemma_actions_err_extends(images@, folder@, i + 1, img.path@);
                    }
                    return Err(img.path.clone());
                },
            },
            CullState::Rejected => {
                acts.push(FileAction::Trash(img.path.clone()));
            },
        }
        assert(acts@.map_values(|a: FileAction| a@) =~= match actions_spec(prefix, folder@) {
            Ok(v) => v,
            Err(_) => Seq::empty(),
        });
        i = i + 1;
    }
    assert(images@.subrange(0, images@.len() as int) =~= images@);
    Ok(acts)
}

/// The UTC calendar year and month of an instant given in seconds since the
/// Unix epoch, as chrono computes them; `None` where chrono cannot represent
/// the instant.
pub uninterp spec fn utc_year_month_of(secs: int) -> Option<(int, int)>;

/// Relies on chrono::DateTime::from_timestamp, which returns `None` only
/// outside chrono's dates (years -262143 to 262142, well beyond
/// +-8_000_000_000_000 seconds), and on the year and month of its UTC date, the
/// month being documented to lie between 1 and 12.
#[verifier::external_body]
fn utc_year_month(secs: i64) -> (r: Option<(i32, u32)>)
    ensures
        match r {
            Some((y, m)) => utc_year_month_of(secs as int) == Some((y as int, m as int)) && 1 <= m
                <= 12,
            None => utc_year_month_of(secs as int) is None,
        },
        -8_000_000_000_000 <= secs <= 8_000_000_000_000 ==> r is Some,
{
    match chrono::DateTime::from_timestamp(secs, 0) {
        Some(t) => Some((t.date_naive().year(), t.date_naive().month())),
        None => None,
    }
}

/// What finishing the culling yields once the date of the earliest image is
/// known (`None` when it has none): the file operations for the edit folder of
/// that year and month, or the error.
pub open spec fn finish_outcome(
    images: Seq<Image>,
    date: Option<(int, int)>,
    edit_base: Seq<char>,
    edit_dir: Seq<char>,
    r: Result<Vec<FileAction>, FinishError>,
) -> bool {
    match date {
        None => r is Err && r->Err_0 is InvalidDate,
        Some((year, month)) => if year < 0 || month < 0 {
            r is Err && r->Err_0 is InvalidDate
        } else {
            match actions_spec(
                images,
                edit_folder_spec(edit_base, year as nat, month as nat, edit_dir),
            ) {
                Ok(acts) => r is Ok && r->Ok_0@.map_values(|a: FileAction| a@) == acts,
                Err(p) => r is Err && r->Err_0 is InvalidFilename && r->Err_0->InvalidFilename_0@
                    == p,
            }
        },
    }
}

/// The file operations that finish the culling, given the UTC year and month
/// of the earliest image.
pub fn finish_actions(
    images: &Vec<Image>,
    date: Option<(i32, u32)>,
    edit_base: &str,
    edit_dir: &str,
) -> (r: Result<Vec<FileAction>, FinishError>)
    ensures
        finish_outcome(
            images@,
            match date {
                Some((y, m)) => Some((y as int, m as int)),
                None => None,
            },
            edit_base@,
            edit_dir@,
            r,
        ),
{
    let (year, month) = match date {
        Some(ym) => ym,
        None => return Err(FinishError::InvalidDate),
    };
    if year < 0 {
        return Err(FinishError::InvalidDate);
    }
    let folder = edit_folder(edit_base, year as u32, month, edit_dir);
    match file_actions(images, folder.as_str()) {
        Ok(acts) => Ok(acts),
        Err(p) => Err(FinishError::InvalidFilename(p)),
    }
}

/// Plans the end of culling: every image must have a disposition; the edit
/// folder is named after the UTC year and month of the earliest image.
pub fn plan_finish(images: &Vec<Image>, edit_base: &str, edit_dir: &str) -> (r: Result<
    Vec<FileAction>,
    FinishError,
>)
    ensures
        images@.len() == 0 ==> r is Err && r->Err_0 is NoImages,
        images@.len() > 0 && any_new(images@) ==> r is Err && r->Err_0 is Unprocessed,
        images@.len() > 0 && !any_new(images@) ==> exists|t: Timestamp|
            is_earliest(images@, t) && finish_outcome(
                images@,
                utc_year_month_of(t.secs as int),
                edit_base@,
                edit_dir@,
                r,
            ),
{
    let earliest = match check_finish(images) {
        Ok(t) => t,
        Err(e) => return Err(e),
    };
    let r = finish_actions(images, utc_year_month(earliest.secs), edit_base, edit_dir);
    assert(is_earliest(images@, earliest));
    r
}

} // verus!
