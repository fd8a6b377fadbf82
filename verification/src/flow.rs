//! The run itself: the metadata URL, the local file name derived from the
//! image URL, and the step-by-step decisions between the four outside
//! operations. The caller performs each action and reports its outcome back
//! as a plain value; every decision in between is made here.

use crate::json::{comic_data, parse_comic, parse_comic_spec, ParseOutcome};
use crate::numbers::{dec_digits, fmt_u64};
use crate::text::{chars_to_string, str_to_chars};
use vstd::prelude::*;

verus! {

/// The exit status of a run that finished in order, also after a metadata
/// body that named no comic.
pub const EXIT_OK: u8 = 0;

/// The exit status of a run that hit a fatal failure.
pub const EXIT_FATAL: u8 = 1;

/// The metadata URL of a comic: the service base, the identifier, the JSON
/// info suffix.
pub open spec fn info_url_spec(id: int) -> Seq<char> {
    "https://xkcd.com/"@ + dec_digits(id) + "/info.0.json"@
}

/// The metadata URL of the given comic identifier.
pub fn comic_info_url(id: u64) -> (r: String)
    ensures
        r@ == info_url_spec(id as int),
{
    let mut out = str_to_chars("https://xkcd.com/");
    let mut digits = fmt_u64(id);
    out.append(&mut digits);
    let mut tail = str_to_chars("/info.0.json");
    out.append(&mut tail);
    assert(out@ =~= info_url_spec(id as int));
    chars_to_string(&out)
}

/// The characters after the last '/' of the text; nothing where the text
/// holds no '/'.
pub open spec fn basename_of(s: Seq<char>) -> Option<Seq<char>>
    decreases s.len(),
{
    if s.len() == 0 {
        None
    } else if s.last() == '/' {
        Some(Seq::empty())
    } else {
        match basename_of(s.drop_last()) {
            Some(b) => Some(b.push(s.last())),
            None => None,
        }
    }
}

/// Everything after the last '/' is the basename.
proof fn lemma_basename_at(s: Seq<char>, i: int)
    requires
        0 <= i < s.len(),
        s[i] == '/',
        forall|j: int| i < j < s.len() ==> s[j] != '/',
    ensures
        basename_of(s) == Some(s.skip(i + 1)),
    decreases s.len(),
{
    if i == s.len() - 1 {
        assert(s.last() == '/');
        assert(s.skip(i + 1) =~= Seq::<char>::empty());
    } else {
        assert(s.last() != '/');
        assert(s.drop_last()[i] == '/');
        lemma_basename_at(s.drop_last(), i);
        assert(s.skip(i + 1) =~= s.drop_last().skip(i + 1).push(s.last()));
    }
}

/// A text without '/' has no basename.
proof fn lemma_basename_none(s: Seq<char>)
    requires
        forall|j: int| 0 <= j < s.len() ==> s[j] != '/',
    ensures
        basename_of(s) is None,
    decreases s.len(),
{
    if s.len() > 0 {
        lemma_basename_none(s.drop_last());
    }
}

/// The local path of a downloaded image: the fixed directory prefix, then
/// the characters after the last '/' of the URL. Nothing where the URL
/// holds no '/': that is a fatal condition, not a default.
pub fn image_file_path(img_url: &str) -> (r: Option<String>)
    ensures
        ({
            let b = basename_of(img_url@);
            &&& (r is Some <==> b is Some)
            &&& (r matches Some(p) ==> (b matches Some(bb) && p@ == "data/"@ + bb))
        }),
{
    let v = str_to_chars(img_url);
    let mut k: usize = v.len();
    while k > 0 && v[k - 1] != '/'
        invariant
            0 <= k <= v.len(),
            v@ == img_url@,
            forall|j: int| k <= j < v@.len() ==> v@[j] != '/',
        decreases k,
    {
        k = k - 1;
    }
    if k == 0 {
        proof {
            lemma_basename_none(img_url@);
        }
        None
    } else {
        assert(v@[k - 1] == '/');
        proof {
            lemma_basename_at(img_url@, k - 1);
        }
        let mut out = str_to_chars("data/");
        let ghost prefix = out@;
        let mut j: usize = k;
        while j < v.len()
            invariant
                k <= j <= v@.len(),
                v@ == img_url@,
                out@ =~= prefix + v@.subrange(k as int, j as int),
            decreases v@.len() - j,
        {
            out.push(v[j]);
            assert(v@.subrange(k as int, j + 1) =~= v@.subrange(k as int, j as int).push(
                v@[j as int],
            ));
            j = j + 1;
        }
        proof {
            assert(v@.subrange(k as int, v@.len() as int) =~= img_url@.skip(k as int));
            assert(out@ =~= "data/"@ + img_url@.skip(k as int));
        }
        Some(chars_to_string(&out))
    }
}

/// What the caller must do next.
pub enum Action {
    FetchMetadata { url: String },
    DownloadImage { url: String, path: String },
    RenderImage { path: String },
    Finish { exit_code: u8 },
}

/// Where the run stands between two actions.
pub enum Phase {
    AwaitingMetadata,
    AwaitingImage { path: String },
    AwaitingRender { path: String },
    Finished { exit_code: u8 },
}

/// What the caller reports back: the outcome of the action it performed.
/// A metadata body of `None` is a transport failure.
pub enum Event {
    MetadataFetched { body: Option<String> },
    ImageSaved { ok: bool },
    Rendered { ok: bool },
}

/// Whether an event can answer the phase's pending action.
pub open spec fn phase_accepts(ph: Phase, ev: Event) -> bool {
    match (ph, ev) {
        (Phase::AwaitingMetadata, Event::MetadataFetched { .. }) => true,
        (Phase::AwaitingImage { .. }, Event::ImageSaved { .. }) => true,
        (Phase::AwaitingRender { .. }, Event::Rendered { .. }) => true,
        _ => false,
    }
}

/// The first phase and action of a run: fetch the chosen comic's metadata.
pub fn start_run(id: u64) -> (r: (Phase, Action))
    ensures
        r.0 is AwaitingMetadata,
        r.1 matches Action::FetchMetadata { url } && url@ == info_url_spec(id as int),
{
    (Phase::AwaitingMetadata, Action::FetchMetadata { url: comic_info_url(id) })
}

/// One decision of the run. A transport failure, a missing '/' in the
/// image URL, a failed download and a failed rendering are fatal; a body
/// that names no comic ends the run successfully with nothing shown; a
/// well-formed body leads to the download, the download to the rendering,
/// the rendering to the successful end.
pub fn step(ph: Phase, ev: Event) -> (r: (Phase, Action))
    requires
        phase_accepts(ph, ev),
    ensures
        ({
            let (ph2, act) = r;
            match ev {
                Event::MetadataFetched { body } => match body {
                    None => ph2 == Phase::Finished { exit_code: EXIT_FATAL } && act
                        == Action::Finish { exit_code: EXIT_FATAL },
                    Some(b) => match parse_comic_spec(b@) {
                        None => ph2 == Phase::Finished { exit_code: EXIT_OK } && act
                            == Action::Finish { exit_code: EXIT_OK },
                        Some(d) => match basename_of(d.img) {
                            None => ph2 == Phase::Finished { exit_code: EXIT_FATAL } && act
                                == Action::Finish { exit_code: EXIT_FATAL },
                            Some(bn) => {
                                &&& ph2 matches Phase::AwaitingImage { path } && path@ == "data/"@
                                    + bn
                                &&& act matches Action::DownloadImage { url, path } && url@
                                    == d.img && path@ == "data/"@ + bn
                            },
                        },
                    },
                },
                Event::ImageSaved { ok } => if ok {
                    &&& ph matches Phase::AwaitingImage { path: p0 } && ph2 matches
                        Phase::AwaitingRender { path } && path@ == p0@
                    &&& ph matches Phase::AwaitingImage { path: p0 } && act matches
                        Action::RenderImage { path } && path@ == p0@
                } else {
                    ph2 == Phase::Finished { exit_code: EXIT_FATAL } && act == Action::Finish {
                        exit_code: EXIT_FATAL,
                    }
                },
                Event::Rendered { ok } => if ok {
                    ph2 == Phase::Finished { exit_code: EXIT_OK } && act == Action::Finish {
                        exit_code: EXIT_OK,
                    }
                } else {
                    ph2 == Phase::Finished { exit_code: EXIT_FATAL } && act == Action::Finish {
                        exit_code: EXIT_FATAL,
                    }
                },
            }
        }),
{
    match ev {
        Event::MetadataFetched { body } => match body {
            None => (
                Phase::Finished { exit_code: EXIT_FATAL },
                Action::Finish { exit_code: EXIT_FATAL },
            ),
            Some(b) => match parse_comic(b.as_str()) {
                ParseOutcome::NoMatch => (
                    Phase::Finished { exit_code: EXIT_OK },
                    Action::Finish { exit_code: EXIT_OK },
                ),
                ParseOutcome::Found(c) => match image_file_path(c.img.as_str()) {
                    None => (
                        Phase::Finished { exit_code: EXIT_FATAL },
                        Action::Finish { exit_code: EXIT_FATAL },
                    ),
                    Some(path) => {
                        let path2 = path.clone();
                        proof {
                            assert(comic_data(c).img == c.img@);
                        }
                        (
                            Phase::AwaitingImage { path },
                            Action::DownloadImage { url: c.img, path: path2 },
                        )
                    },
                },
            },
        },
        Event::ImageSaved { ok } => match ph {
            Phase::AwaitingImage { path } => {
                if ok {
                    let path2 = path.clone();
                    (Phase::AwaitingRender { path }, Action::RenderImage { path: path2 })
                } else {
                    (
                        Phase::Finished { exit_code: EXIT_FATAL },
                        Action::Finish { exit_code: EXIT_FATAL },
                    )
                }
            },
            _ => (
                Phase::Finished { exit_code: EXIT_FATAL },
                Action::Finish { exit_code: EXIT_FATAL },
            ),
        },
        Event::Rendered { ok } => {
            if ok {
                (Phase::Finished { exit_code: EXIT_OK }, Action::Finish { exit_code: EXIT_OK })
            } else {
                (
                    Phase::Finished { exit_code: EXIT_FATAL },
                    Action::Finish { exit_code: EXIT_FATAL },
                )
            }
        },
    }
}

/// Where and how large the image is drawn in the terminal: a fixed origin
/// and a fixed bound, the aspect ratio left to the renderer.
pub struct RenderPlan {
    pub x: u16,
    pub y: i16,
    pub width: u32,
    pub height: u32,
}

/// The fixed drawing plan: origin column five, row five, at most eighty
/// columns by twenty-five rows.
pub fn render_plan() -> (r: RenderPlan)
    ensures
        r.x == 5 && r.y == 5 && r.width == 80 && r.height == 25,
{
    RenderPlan { x: 5, y: 5, width: 80, height: 25 }
}

} // verus!
