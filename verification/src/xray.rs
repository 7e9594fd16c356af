//! The `Xray` handle, its command protocol and the `build_frame` builder.
//!
//! `Xray` holds an optional spec and a loaded dataset. Callers drive it with
//! commands (set the spec, load a dataset, build the full frame or the frame
//! folded up to an instant, read the bounds, reset, read the version); a
//! domain error is an error value, never a panic. [`build_frame`] windows the
//! dataset to the frame's time range, sorts it, and builds each spec panel in
//! order with the caller's panel builder.

use vstd::prelude::*;

use crate::dataset::{Dataset, DatasetView};
use crate::error::{Error, ErrorView, Result};
use crate::json::{decimal, decimal_i64, decimal_u64, error_reply, error_text};
use crate::spec::{reports, XrayPanel, XraySpec, XraySpecView};
use crate::text::{trim, trimmed};

verus! {

/// The dataset bounds, for a time scrubber.
#[derive(Clone, Copy, Debug, PartialEq, Eq, Structural)]
pub struct Bounds {
    /// Earliest event timestamp across all streams.
    pub from_ts: i64,
    /// Latest event timestamp across all streams.
    pub to_ts: i64,
    /// Total number of events.
    pub count: usize,
}

/// One frame: the panels for a symbol, folded up to `cursor_ts`.
#[derive(Debug)]
pub struct XrayFrame<P> {
    /// The symbol the dataset belongs to.
    pub symbol: String,
    /// The instant folded up to.
    pub cursor_ts: i64,
    /// One entry per spec panel, in spec order.
    pub panels: Vec<P>,
}

/// The window end a frame folds to: the cursor, capped by the spec's `to_ts`.
pub open spec fn effective_cursor(spec: XraySpecView, cursor_ts: i64) -> i64 {
    match spec.to_ts {
        Some(to) => if cursor_ts <= to { cursor_ts } else { to },
        None => cursor_ts,
    }
}

/// What a frame is built from: its symbol, the instant it is folded to, and
/// the dataset clipped to `[from_ts, that instant]` and sorted by time.
pub struct FramePlan {
    pub symbol: Seq<char>,
    pub cursor_ts: i64,
    pub window: DatasetView,
}

/// The plan of the frame of `data` under `spec`, folded up to `cursor_ts`.
pub open spec fn frame_plan(data: DatasetView, spec: XraySpecView, cursor_ts: i64) -> FramePlan {
    let end = effective_cursor(spec, cursor_ts);
    FramePlan {
        symbol: spec.symbol,
        cursor_ts: end,
        window: data.window(spec.from_ts, Some(end)).sorted(),
    }
}

/// `f` is a frame built by `build_panel` according to `plan`: same symbol
/// and cursor, and one panel per spec panel, each what `build_panel` returns
/// for that panel over the plan's window.
pub open spec fn realizes<P, F: Fn(&XrayPanel, &Dataset, i64) -> P>(
    f: XrayFrame<P>,
    plan: FramePlan,
    panels: Seq<XrayPanel>,
    build_panel: F,
) -> bool {
    &&& f.symbol@ == plan.symbol
    &&& f.cursor_ts == plan.cursor_ts
    &&& f.panels@.len() == panels.len()
    &&& exists|w: Dataset| {
        &&& #[trigger] w@ == plan.window
        &&& forall|i: int| 0 <= i < panels.len() ==> build_panel.ensures((&panels[i], &w, plan.cursor_ts), #[trigger] f.panels@[i])
    }
}

/// Builds a frame from a dataset and spec, folded up to `cursor_ts`.
///
/// The window is `[from_ts, min(cursor_ts, to_ts)]` (an open spec bound is
/// unbounded on that side); the clipped copy is sorted so the fold is
/// deterministic, and `build_panel` builds each spec panel in order. The
/// frame's `cursor_ts` is the window end actually folded to. An invalid spec
/// is rejected with its validation error.
pub fn build_frame<P, F: Fn(&XrayPanel, &Dataset, i64) -> P>(
    dataset: &Dataset,
    spec: &XraySpec,
    cursor_ts: i64,
    build_panel: F,
) -> (r: Result<XrayFrame<P>>)
    requires
        forall|p: &XrayPanel, w: &Dataset, c: i64| build_panel.requires((p, w, c)),
    ensures
        r is Ok <==> spec@.valid(),
        r is Err ==> reports(Err(r->Err_0), spec@.error()),
        r matches Ok(f) ==> realizes(f, frame_plan(dataset@, spec@, cursor_ts), spec@.panels, build_panel),
{
    match spec.validate() {
        Ok(()) => {},
        Err(e) => {
            return Err(e);
        },
    }
    let effective = match spec.to_ts {
        Some(to) => if cursor_ts <= to { cursor_ts } else { to },
        None => cursor_ts,
    };
    let mut win = dataset.window(spec.from_ts, Some(effective));
    win.sort();
    let ghost plan = frame_plan(dataset@, spec@, cursor_ts);
    let mut panels: Vec<P> = Vec::new();
    let mut i: usize = 0;
    while i < spec.panels.len()
        invariant
            i <= spec.panels@.len(),
            panels@.len() == i,
            forall|p: &XrayPanel, w: &Dataset, c: i64| build_panel.requires((p, w, c)),
            forall|k: int| 0 <= k < i ==> build_panel.ensures((&spec.panels@[k], &win, effective), #[trigger] panels@[k]),
        decreases spec.panels.len() - i,
    {
        let panel = build_panel(&spec.panels[i], &win, effective);
        panels.push(panel);
        i = i + 1;
    }
    let f = XrayFrame { symbol: spec.symbol.clone(), cursor_ts: effective, panels };
    assert(win@ == plan.window);
    assert(realizes(f, plan, spec@.panels, build_panel));
    Ok(f)
}

/// The spec text of a handle's creation text: `None` when the text, trimmed
/// of white space, is empty or `{}` (an empty handle, the spec set later),
/// else the trimmed text, to be parsed as a spec.
pub fn spec_text(text: &str) -> (r: Option<&str>)
    ensures
        match r {
            None => trimmed(text@) == Seq::<char>::empty() || trimmed(text@) == "{}"@,
            Some(t) => t@ == trimmed(text@) && t@ != Seq::<char>::empty() && t@ != "{}"@,
        },
{
    let t = trim(text);
    let owned = String::from_str(t);
    let empty = String::new();
    let braces = String::from_str("{}");
    if owned == empty || owned == braces {
        None
    } else {
        Some(t)
    }
}

/// A data-driven X-Ray: an optional spec plus a loaded dataset.
#[derive(Debug)]
pub struct Xray {
    spec: Option<XraySpec>,
    dataset: Dataset,
}

/// The mathematical content of an [`Xray`].
pub struct XrayView {
    pub spec: Option<XraySpecView>,
    pub dataset: DatasetView,
}

impl View for Xray {
    type V = XrayView;

    closed spec fn view(&self) -> XrayView {
        XrayView {
            spec: match self.spec {
                Some(s) => Some(s@),
                None => None,
            },
            dataset: self.dataset@,
        }
    }
}

/// What a frame request of `x` folded up to `cursor_ts` yields: an error
/// when no spec is set or no dataset is loaded, else the frame's plan (or the
/// spec's validation error).
pub open spec fn frame_request(x: XrayView, cursor_ts: i64) -> core::result::Result<FramePlan, ErrorView> {
    match x.spec {
        None => Err(ErrorView::BadSpec("no spec set"@)),
        Some(s) => if x.dataset.n_events() == 0 {
            Err(ErrorView::Data("no dataset"@))
        } else {
            match s.error() {
                Some(m) => Err(ErrorView::BadSpec(m)),
                None => Ok(frame_plan(x.dataset, s, cursor_ts)),
            }
        },
    }
}

/// The instant the full-window frame folds to: the spec's `to_ts`, or the
/// dataset's latest timestamp when the spec leaves it open.
pub open spec fn full_cursor(x: XrayView) -> i64 {
    match x.spec {
        Some(s) => match s.to_ts {
            Some(to) => to,
            None => x.dataset.max_ts(),
        },
        None => 0,
    }
}

/// `r` answers `req`, building panels with `build_panel` over `panels`.
pub open spec fn answers<P, F: Fn(&XrayPanel, &Dataset, i64) -> P>(
    r: Result<XrayFrame<P>>,
    req: core::result::Result<FramePlan, ErrorView>,
    panels: Seq<XrayPanel>,
    build_panel: F,
) -> bool {
    match req {
        Err(e) => r matches Err(err) && err@ == e,
        Ok(plan) => r matches Ok(f) && realizes(f, plan, panels, build_panel),
    }
}

impl Xray {
    /// The well-formedness of the handle: the event count fits a machine size.
    pub open spec fn wf(&self) -> bool {
        self@.dataset.n_events() <= usize::MAX
    }

    /// Creates an X-Ray, with no spec or with the given spec once it passes
    /// validation; the dataset starts empty.
    pub fn new(spec: Option<XraySpec>) -> (r: Result<Xray>)
        ensures
            match spec {
                None => r is Ok,
                Some(s) => reports(match r { Ok(_) => Ok(()), Err(e) => Err(e) }, s@.error()),
            },
            r matches Ok(x) ==> {
                &&& x.wf()
                &&& x@.dataset == DatasetView::empty()
                &&& x@.spec == match spec { Some(s) => Some(s@), None => None::<XraySpecView> }
            },
    {
        if let Some(s) = &spec {
            match s.validate() {
                Ok(()) => {},
                Err(e) => {
                    return Err(e);
                },
            }
        }
        Ok(Xray { spec, dataset: Dataset::empty() })
    }

    /// The crate version.
    pub fn version() -> (v: &'static str)
        ensures
            v@ == crate::spec_version(),
    {
        crate::version()
    }

    /// The current spec, if any.
    pub fn spec(&self) -> (s: &Option<XraySpec>)
        ensures
            match *s { Some(sp) => self@.spec == Some(sp@), None => self@.spec is None },
    {
        &self.spec
    }

    /// Replaces the spec; the dataset is kept.
    pub fn set_spec(&mut self, spec: XraySpec)
        ensures
            final(self)@.spec == Some(spec@),
            final(self)@.dataset == old(self)@.dataset,
    {
        self.spec = Some(spec);
    }

    /// Loads a dataset, sorting every stream by timestamp; returns the event
    /// count. The spec is kept.
    pub fn load(&mut self, dataset: Dataset) -> (r: Result<usize>)
        requires
            dataset@.n_events() <= usize::MAX,
        ensures
            r matches Ok(n) && n == dataset@.n_events(),
            final(self)@.dataset == dataset@.sorted(),
            final(self)@.spec == old(self)@.spec,
            final(self).wf(),
    {
        let mut dataset = dataset;
        dataset.sort();
        let n = dataset.n_events();
        self.dataset = dataset;
        Ok(n)
    }

    /// Clears the dataset, keeping the spec.
    pub fn reset(&mut self)
        ensures
            final(self)@.dataset == DatasetView::empty(),
            final(self)@.spec == old(self)@.spec,
            final(self).wf(),
    {
        self.dataset = Dataset::empty();
    }

    /// The dataset bounds for the scrubber, or a `Data` error when no dataset
    /// events are loaded.
    pub fn bounds(&self) -> (r: Result<Bounds>)
        requires
            self.wf(),
        ensures
            self@.dataset.n_events() == 0 ==> (r matches Err(e) && e@ == ErrorView::Data("no dataset"@)),
            self@.dataset.n_events() > 0 ==> (r matches Ok(b) && b == (Bounds {
                from_ts: self@.dataset.min_ts(),
                to_ts: self@.dataset.max_ts(),
                count: self@.dataset.n_events() as usize,
            })),
    {
        match self.dataset.bounds() {
            Some((from_ts, to_ts, count)) => Ok(Bounds { from_ts, to_ts, count }),
            None => Err(Error::data("no dataset")),
        }
    }

    /// The full-window frame: folded to the spec's `to_ts`, or to the dataset
    /// end when the spec leaves `to_ts` open.
    pub fn frame<P, F: Fn(&XrayPanel, &Dataset, i64) -> P>(&self, build_panel: F) -> (r: Result<XrayFrame<P>>)
        requires
            self.wf(),
            forall|p: &XrayPanel, w: &Dataset, c: i64| build_panel.requires((p, w, c)),
        ensures
            answers(r, frame_request(self@, full_cursor(self@)), match self@.spec { Some(s) => s.panels, None => Seq::empty() }, build_panel),
    {
        let spec = match &self.spec {
            Some(s) => s,
            None => {
                return Err(Error::bad_spec("no spec set"));
            },
        };
        let hi = match self.dataset.bounds() {
            Some((_, hi, _)) => hi,
            None => {
                return Err(Error::data("no dataset"));
            },
        };
        let cursor = match spec.to_ts {
            Some(to) => to,
            None => hi,
        };
        build_frame(&self.dataset, spec, cursor, build_panel)
    }

    /// The frame folded up to `ts` (the scrubber path); the window end is
    /// `min(ts, to_ts)`.
    pub fn frame_at<P, F: Fn(&XrayPanel, &Dataset, i64) -> P>(&self, ts: i64, build_panel: F) -> (r: Result<XrayFrame<P>>)
        requires
            self.wf(),
            forall|p: &XrayPanel, w: &Dataset, c: i64| build_panel.requires((p, w, c)),
        ensures
            answers(r, frame_request(self@, ts), match self@.spec { Some(s) => s.panels, None => Seq::empty() }, build_panel),
    {
        let spec = match &self.spec {
            Some(s) => s,
            None => {
                return Err(Error::bad_spec("no spec set"));
            },
        };
        if self.dataset.bounds().is_none() {
            return Err(Error::data("no dataset"));
        }
        build_frame(&self.dataset, spec, ts, build_panel)
    }
}

/// A command, its fields already decoded from the caller's JSON envelope.
#[derive(Debug)]
pub struct Envelope {
    /// The `cmd` field, when present and a string.
    pub cmd: Option<String>,
    /// The `spec` field when present: the parsed spec, or the parse error text.
    pub spec: Option<core::result::Result<XraySpec, String>>,
    /// The `dataset` field when present: the parsed dataset, or the parse error text.
    pub dataset: Option<core::result::Result<Dataset, String>>,
    /// The `ts` field, when present and an integer.
    pub ts: Option<i64>,
}

/// The successful outcome of a command.
#[derive(Debug)]
pub enum Reply<P> {
    /// The command took effect (`set_spec`, `reset`).
    Done,
    /// A dataset of this many events was loaded.
    Loaded(usize),
    /// A frame (`frame`, `frame_at`).
    Frame(XrayFrame<P>),
    /// The dataset bounds.
    Bounds(Bounds),
    /// The crate version.
    Version,
}

/// Whether `cmd` names the command `name`.
pub open spec fn is_cmd(cmd: Option<String>, name: Seq<char>) -> bool {
    cmd matches Some(c) && c@ == name
}

/// The command names the protocol knows.
pub open spec fn known_cmd(c: Seq<char>) -> bool {
    ||| c == "set_spec"@
    ||| c == "load"@
    ||| c == "frame_at"@
    ||| c == "frame"@
    ||| c == "bounds"@
    ||| c == "reset"@
    ||| c == "version"@
}

proof fn lemma_command_names_distinct()
    ensures
        "set_spec"@ != "load"@,
        "set_spec"@ != "frame_at"@,
        "set_spec"@ != "frame"@,
        "set_spec"@ != "bounds"@,
        "set_spec"@ != "reset"@,
        "set_spec"@ != "version"@,
        "load"@ != "frame_at"@,
        "load"@ != "frame"@,
        "load"@ != "bounds"@,
        "load"@ != "reset"@,
        "load"@ != "version"@,
        "frame_at"@ != "frame"@,
        "frame_at"@ != "bounds"@,
        "frame_at"@ != "reset"@,
        "frame_at"@ != "version"@,
        "frame"@ != "bounds"@,
        "frame"@ != "reset"@,
        "frame"@ != "version"@,
        "bounds"@ != "reset"@,
        "bounds"@ != "version"@,
        "reset"@ != "version"@,
{
    reveal_strlit("set_spec");
    reveal_strlit("load");
    reveal_strlit("frame_at");
    reveal_strlit("frame");
    reveal_strlit("bounds");
    reveal_strlit("reset");
    reveal_strlit("version");
    assert("set_spec"@.len() == 8);
    assert("load"@.len() == 4);
    assert("frame_at"@.len() == 8);
    assert("frame"@.len() == 5);
    assert("bounds"@.len() == 6);
    assert("reset"@.len() == 5);
    assert("version"@.len() == 7);
    assert("set_spec"@[0] != "frame_at"@[0]);
    assert("frame"@[0] != "reset"@[0]);
}

fn names(cmd: &String, name: &str) -> (r: bool)
    ensures
        r == (cmd@ == name@),
{
    *cmd == String::from_str(name)
}

/// The JSON text of a reply other than a frame (frames are rendered by the
/// caller): `{"ok":true}`, `{"ok":true,"loaded":N}`, the bounds object, or
/// `{"version":"..."}`.
pub open spec fn reply_text<P>(reply: Reply<P>) -> Option<Seq<char>> {
    match reply {
        Reply::Done => Some("{\"ok\":true}"@),
        Reply::Loaded(n) => Some("{\"ok\":true,\"loaded\":"@ + decimal(n as int) + "}"@),
        Reply::Frame(_) => None,
        Reply::Bounds(b) => Some("{\"from_ts\":"@ + decimal(b.from_ts as int)
            + ",\"to_ts\":"@ + decimal(b.to_ts as int) + ",\"count\":"@ + decimal(b.count as int) + "}"@),
        Reply::Version => Some("{\"version\":\""@ + crate::spec_version() + "\"}"@),
    }
}

/// The views of an optional string.
pub open spec fn opt_view(o: Option<String>) -> Option<Seq<char>> {
    match o {
        Some(s) => Some(s@),
        None => None,
    }
}

/// The JSON text of a reply other than a frame; `None` for a frame.
pub fn reply_json<P>(reply: &Reply<P>) -> (r: Option<String>)
    ensures
        opt_view(r) == reply_text(*reply),
{
    match reply {
        Reply::Done => Some(String::from_str("{\"ok\":true}")),
        Reply::Loaded(n) => Some(String::from_str("{\"ok\":true,\"loaded\":").concat(decimal_u64(*n as u64).as_str()).concat("}")),
        Reply::Frame(_) => None,
        Reply::Bounds(b) => Some(
            String::from_str("{\"from_ts\":").concat(decimal_i64(b.from_ts).as_str()).concat(",\"to_ts\":").concat(
                decimal_i64(b.to_ts).as_str(),
            ).concat(",\"count\":").concat(decimal_u64(b.count as u64).as_str()).concat("}"),
        ),
        Reply::Version => Some(String::from_str("{\"version\":\"").concat(crate::version()).concat("\"}")),
    }
}

/// What a run of `env` on the handle `old` does: the handle becomes `new`
/// and the outcome is `r`. A failed command changes nothing; each command's
/// errors and replies are those of the protocol.
pub open spec fn dispatched<P, F: Fn(&XrayPanel, &Dataset, i64) -> P>(
    old: XrayView,
    new: XrayView,
    env: Envelope,
    r: Result<Reply<P>>,
    build_panel: F,
) -> bool {
    &&& (r is Err ==> new == old)
    &&& (env.cmd is None ==> (r matches Err(e) && e@ == ErrorView::BadSpec("missing 'cmd'"@)))
    &&& ((env.cmd matches Some(c) && !known_cmd(c@)) ==> (r matches Err(e) && e@ == ErrorView::BadSpec("unknown cmd: "@ + env.cmd->0@)))
    &&& (is_cmd(env.cmd, "set_spec"@) ==> match env.spec {
        None => r matches Err(e) && e@ == ErrorView::BadSpec("set_spec requires 'spec'"@),
        Some(Err(m)) => r matches Err(e) && e@ == ErrorView::Parse(m@),
        Some(Ok(s)) => match s@.error() {
            Some(m) => r matches Err(e) && e@ == ErrorView::BadSpec(m),
            None => r matches Ok(Reply::Done) && new.spec == Some(s@) && new.dataset == old.dataset,
        },
    })
    &&& (is_cmd(env.cmd, "load"@) ==> match env.dataset {
        None => r matches Err(e) && e@ == ErrorView::BadSpec("load requires 'dataset'"@),
        Some(Err(m)) => r matches Err(e) && e@ == ErrorView::Parse(m@),
        Some(Ok(d)) => r matches Ok(Reply::Loaded(n)) && n == d@.n_events() && new.dataset == d@.sorted() && new.spec == old.spec,
    })
    &&& (is_cmd(env.cmd, "frame_at"@) ==> match env.ts {
        None => r matches Err(e) && e@ == ErrorView::BadSpec("frame_at requires integer 'ts'"@),
        Some(ts) => new == old && match frame_request(old, ts) {
            Err(ev) => r matches Err(e) && e@ == ev,
            Ok(plan) => r matches Ok(Reply::Frame(f)) && realizes(f, plan, old.spec->0.panels, build_panel),
        },
    })
    &&& (is_cmd(env.cmd, "frame"@) ==> new == old && match frame_request(old, full_cursor(old)) {
        Err(ev) => r matches Err(e) && e@ == ev,
        Ok(plan) => r matches Ok(Reply::Frame(f)) && realizes(f, plan, old.spec->0.panels, build_panel),
    })
    &&& (is_cmd(env.cmd, "bounds"@) ==> new == old && if old.dataset.n_events() == 0 {
        r matches Err(e) && e@ == ErrorView::Data("no dataset"@)
    } else {
        r matches Ok(Reply::Bounds(b)) && b == (Bounds {
            from_ts: old.dataset.min_ts(),
            to_ts: old.dataset.max_ts(),
            count: old.dataset.n_events() as usize,
        })
    })
    &&& (is_cmd(env.cmd, "reset"@) ==> (r matches Ok(Reply::Done) && new.dataset == DatasetView::empty() && new.spec == old.spec))
    &&& (is_cmd(env.cmd, "version"@) ==> (r matches Ok(Reply::Version) && new == old))
}

impl Xray {
    /// Runs one command: `set_spec` (validated), `load`, `frame_at`, `frame`,
    /// `bounds`, `reset` or `version`. A missing or unknown command, a missing
    /// or unparsable field, an invalid spec and a frame or bounds request
    /// without a spec or dataset are errors; a failed command changes nothing.
    pub fn dispatch<P, F: Fn(&XrayPanel, &Dataset, i64) -> P>(
        &mut self,
        env: Envelope,
        build_panel: F,
    ) -> (r: Result<Reply<P>>)
        requires
            old(self).wf(),
            env.dataset matches Some(Ok(d)) ==> d@.n_events() <= usize::MAX,
            forall|p: &XrayPanel, w: &Dataset, c: i64| build_panel.requires((p, w, c)),
        ensures
            final(self).wf(),
            dispatched(old(self)@, final(self)@, env, r, build_panel),
    {
        proof {
            lemma_command_names_distinct();
        }
        let cmd = match env.cmd {
            Some(c) => c,
            None => {
                return Err(Error::bad_spec("missing 'cmd'"));
            },
        };
        if names(&cmd, "set_spec") {
            match env.spec {
                None => Err(Error::bad_spec("set_spec requires 'spec'")),
                Some(Err(m)) => Err(Error::Parse(m)),
                Some(Ok(s)) => {
                    match s.validate() {
                        Ok(()) => {},
                        Err(e) => {
                            return Err(e);
                        },
                    }
                    self.set_spec(s);
                    Ok(Reply::Done)
                },
            }
        } else if names(&cmd, "load") {
            match env.dataset {
                None => Err(Error::bad_spec("load requires 'dataset'")),
                Some(Err(m)) => Err(Error::Parse(m)),
                Some(Ok(d)) => {
                    let loaded = self.load(d);
                    match loaded {
                        Ok(n) => Ok(Reply::Loaded(n)),
                        Err(e) => Err(e),
                    }
                },
            }
        } else if names(&cmd, "frame_at") {
            match env.ts {
                None => Err(Error::bad_spec("frame_at requires integer 'ts'")),
                Some(ts) => match self.frame_at(ts, build_panel) {
                    Ok(f) => Ok(Reply::Frame(f)),
                    Err(e) => Err(e),
                },
            }
        } else if names(&cmd, "frame") {
            match self.frame(build_panel) {
                Ok(f) => Ok(Reply::Frame(f)),
                Err(e) => Err(e),
            }
        } else if names(&cmd, "bounds") {
            match self.bounds() {
                Ok(b) => Ok(Reply::Bounds(b)),
                Err(e) => Err(e),
            }
        } else if names(&cmd, "reset") {
            self.reset();
            Ok(Reply::Done)
        } else if names(&cmd, "version") {
            Ok(Reply::Version)
        } else {
            Err(Error::BadSpec(String::from_str("unknown cmd: ").concat(cmd.as_str())))
        }
    }
}

/// The fields of a command text parsed as JSON: the `cmd` member when it is
/// a string, the `ts` member when it is an integer that fits `i64`, and the
/// JSON text of the `spec` and `dataset` members when present; or the parse
/// error's text when the command is not JSON.
pub uninterp spec fn envelope_fields(text: Seq<char>) -> core::result::Result<(Option<Seq<char>>, Option<i64>, Option<Seq<char>>, Option<Seq<char>>), Seq<char>>;

/// The fields of a command envelope, as plain values.
pub type EnvelopeFields = (Option<String>, Option<i64>, Option<String>, Option<String>);

/// `serde_json::from_str::<serde_json::Value>` on the command text, then the
/// reads `cmd` (`Value::as_str`), `ts` (`Value::as_i64`), and the members
/// `spec` and `dataset` written back as JSON text (`Value::to_string`). The
/// result is named [`envelope_fields`] of the text; a malformed text gives
/// the parse error's message.
#[verifier::external_body]
fn read_envelope(text: &str) -> (r: core::result::Result<EnvelopeFields, String>)
    ensures
        match r {
            Ok(f) => envelope_fields(text@) == Ok::<_, Seq<char>>((opt_view(f.0), f.1, opt_view(f.2), opt_view(f.3))),
            Err(m) => envelope_fields(text@) == Err::<(Option<Seq<char>>, Option<i64>, Option<Seq<char>>, Option<Seq<char>>), _>(m@),
        },
{
    let v: serde_json::Value = serde_json::from_str(text).map_err(|e| e.to_string())?;
    Ok((
        v.get("cmd").and_then(serde_json::Value::as_str).map(str::to_owned),
        v.get("ts").and_then(serde_json::Value::as_i64),
        v.get("spec").map(|x| x.to_string()),
        v.get("dataset").map(|x| x.to_string()),
    ))
}

/// `env` is the envelope of the decoded fields `fields`: the same `cmd` and
/// `ts`, and for `spec` and `dataset` what the caller's parsers return on
/// the member's JSON text.
pub open spec fn decodes<S, D>(
    env: Envelope,
    fields: (Option<Seq<char>>, Option<i64>, Option<Seq<char>>, Option<Seq<char>>),
    parse_spec: S,
    parse_dataset: D,
) -> bool where
    S: Fn(&String) -> core::result::Result<XraySpec, String>,
    D: Fn(&String) -> core::result::Result<Dataset, String>,
 {
    &&& opt_view(env.cmd) == fields.0
    &&& env.ts == fields.1
    &&& match fields.2 {
        None => env.spec is None,
        Some(t) => env.spec matches Some(x) && exists|u: String| u@ == t && #[trigger] parse_spec.ensures((&u,), x),
    }
    &&& match fields.3 {
        None => env.dataset is None,
        Some(t) => env.dataset matches Some(x) && exists|u: String| u@ == t && #[trigger] parse_dataset.ensures((&u,), x),
    }
}

/// `text` is the reply to the outcome `r`: the error reply, the caller's
/// rendering of a frame, or the JSON text of any other reply.
pub open spec fn reply_is<P, R: Fn(&XrayFrame<P>) -> String>(text: Seq<char>, r: Result<Reply<P>>, render_frame: R) -> bool {
    match r {
        Err(e) => text == error_text(e@),
        Ok(Reply::Frame(f)) => exists|s: String| s@ == text && #[trigger] render_frame.ensures((&f,), s),
        Ok(reply) => reply_text(reply) == Some(text),
    }
}

impl Xray {
    /// Runs one command given as JSON text and returns its JSON reply. The
    /// text is decoded into its fields; `parse_spec` and `parse_dataset`
    /// read the `spec` and `dataset` members, `build_panel` builds frame
    /// panels and `render_frame` writes a frame. A malformed command is a
    /// parse error; every failure is answered `{"ok":false,"error":"..."}`,
    /// never a panic.
    pub fn command_json<P, F, S, D, R>(
        &mut self,
        cmd_json: &str,
        parse_spec: S,
        parse_dataset: D,
        build_panel: F,
        render_frame: R,
    ) -> (r: String) where
        F: Fn(&XrayPanel, &Dataset, i64) -> P,
        S: Fn(&String) -> core::result::Result<XraySpec, String>,
        D: Fn(&String) -> core::result::Result<Dataset, String>,
        R: Fn(&XrayFrame<P>) -> String,
        requires
            old(self).wf(),
            forall|p: &XrayPanel, w: &Dataset, c: i64| build_panel.requires((p, w, c)),
            forall|t: &String| parse_spec.requires((t,)),
            forall|t: &String| parse_dataset.requires((t,)),
            forall|f: &XrayFrame<P>| render_frame.requires((f,)),
            forall|t: &String, d: Dataset| #[trigger] parse_dataset.ensures((t,), Ok(d)) ==> d@.n_events() <= usize::MAX,
        ensures
            final(self).wf(),
            match envelope_fields(cmd_json@) {
                Err(m) => r@ == error_text(ErrorView::Parse(m)) && final(self)@ == old(self)@,
                Ok(fields) => exists|env: Envelope, res: Result<Reply<P>>| {
                    &&& #[trigger] decodes(env, fields, parse_spec, parse_dataset)
                    &&& #[trigger] dispatched(old(self)@, final(self)@, env, res, build_panel)
                    &&& reply_is(r@, res, render_frame)
                },
            },
    {
        match read_envelope(cmd_json) {
            Err(m) => error_reply(&Error::Parse(m)),
            Ok((cmd, ts, spec_text, dataset_text)) => {
                let spec = match spec_text {
                    None => None,
                    Some(t) => Some(parse_spec(&t)),
                };
                let dataset = match dataset_text {
                    None => None,
                    Some(t) => Some(parse_dataset(&t)),
                };
                let env = Envelope { cmd, spec, dataset, ts };
                let ghost g_env = env;
                let res = self.dispatch(env, build_panel);
                let ghost g_res = res;
                let text = match res {
                    Err(e) => error_reply(&e),
                    Ok(Reply::Frame(f)) => render_frame(&f),
                    Ok(other) => match reply_json(&other) {
                        Some(t) => t,
                        None => String::new(),
                    },
                };
                assert(decodes(g_env, envelope_fields(cmd_json@)->Ok_0, parse_spec, parse_dataset));
                assert(dispatched(old(self)@, self@, g_env, g_res, build_panel));
                text
            },
        }
    }
}

} // verus!
