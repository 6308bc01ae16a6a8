//! The logger: which records pass, and what each one makes the sinks do.
//! Writing is left to the caller, which performs the returned actions in order.

use vstd::prelude::*;
use crate::level::{Level, LevelFilter, native_priority, native_priority_of};
use crate::filter::{DirectiveView, FilterConfig, enabled_by, max_threshold, configured};

verus! {

/// Where records are written: the standard logging stream, or the native
/// log service of the mobile platform.
#[derive(Clone, Copy, Debug, PartialEq, Eq, Structural)]
pub enum SinkKind {
    Stream,
    Native,
}

/// One record: its level, its target and its formatted message.
pub struct LogRecord {
    pub level: Level,
    pub target: String,
    pub message: String,
}

/// A record as a value: level, target, message.
pub type RecordView = (Level, Seq<char>, Seq<char>);

impl View for LogRecord {
    type V = RecordView;

    open spec fn view(&self) -> RecordView {
        (self.level, self.target@, self.message@)
    }
}

/// One write for a sink to perform.
pub enum SinkAction {
    /// Append `text` to the rendering crash note.
    CriticalNote { text: String },
    /// Write the record to the standard logging stream.
    Stream { level: Level, target: String, message: String },
    /// Write `text` under `tag` with `priority` to the native log service.
    Native { priority: i32, tag: String, text: String },
}

/// A sink write as a value.
pub enum ActionView {
    CriticalNote(Seq<char>),
    Stream(Level, Seq<char>, Seq<char>),
    Native(i32, Seq<char>, Seq<char>),
}

impl View for SinkAction {
    type V = ActionView;

    open spec fn view(&self) -> ActionView {
        match self {
            SinkAction::CriticalNote { text } => ActionView::CriticalNote(text@),
            SinkAction::Stream { level, target, message } => ActionView::Stream(
                *level,
                target@,
                message@,
            ),
            SinkAction::Native { priority, tag, text } => ActionView::Native(
                *priority,
                tag@,
                text@,
            ),
        }
    }
}

pub open spec fn actions_view(a: Seq<SinkAction>) -> Seq<ActionView> {
    a.map_values(|x: SinkAction| x@)
}

/// `needle` occurs in `hay` at some position.
pub open spec fn is_substring(needle: Seq<char>, hay: Seq<char>) -> bool {
    exists|i: int|
        0 <= i && i + needle.len() <= hay.len() && #[trigger] hay.subrange(i, i + needle.len())
            == needle
}

/// The marker of rendering-subsystem targets.
pub open spec fn render_marker() -> Seq<char> {
    seq!['w', 'e', 'b', 'r', 'e', 'n', 'd', 'e', 'r']
}

/// Text that a C string cannot hold: it has a NUL character.
pub open spec fn has_nul(s: Seq<char>) -> bool {
    s.contains('\0')
}

/// Records that also go to the rendering crash note: errors of a rendering
/// target.
pub open spec fn forwards_to_critical_note(level: Level, target: Seq<char>) -> bool {
    level == Level::Error && is_substring(render_marker(), target)
}

/// Relies on `str::contains` with a string pattern: true exactly when
/// `needle` occurs in `hay`.
#[verifier::external_body]
fn str_contains(hay: &str, needle: &str) -> (r: bool)
    ensures
        r == is_substring(needle@, hay@),
{
    hay.contains(needle)
}

/// A logger as a value: its directive table, its sink, and whether it
/// forwards to the rendering crash note.
pub struct LoggerView {
    pub directives: Seq<DirectiveView>,
    pub sink: SinkKind,
    pub critical_notes: bool,
}

/// The crash-note write for a record, if any; a message that a C string
/// cannot hold is dropped.
pub open spec fn note_actions(l: LoggerView, r: RecordView) -> Seq<ActionView> {
    if l.critical_notes && forwards_to_critical_note(r.0, r.1) && !has_nul(r.2) {
        seq![ActionView::CriticalNote(r.2)]
    } else {
        seq![]
    }
}

/// The sink write for a record; on the native service a record whose target
/// or message a C string cannot hold is dropped.
pub open spec fn out_actions(l: LoggerView, r: RecordView) -> Seq<ActionView> {
    match l.sink {
        SinkKind::Stream => seq![ActionView::Stream(r.0, r.1, r.2)],
        SinkKind::Native => if !has_nul(r.1) && !has_nul(r.2) {
            seq![ActionView::Native(native_priority(r.0), r.1, r.2)]
        } else {
            seq![]
        },
    }
}

/// What logging one record does: the crash note first, then the sink.
pub open spec fn log_actions(l: LoggerView, r: RecordView) -> Seq<ActionView> {
    note_actions(l, r) + out_actions(l, r)
}

/// The process-wide logger. Its table never changes once built.
pub struct GeckoLogger {
    filter: FilterConfig,
    sink: SinkKind,
    critical_notes: bool,
}

impl View for GeckoLogger {
    type V = LoggerView;

    closed spec fn view(&self) -> LoggerView {
        LoggerView { directives: self.filter@, sink: self.sink, critical_notes: self.critical_notes }
    }
}

proof fn lemma_single_char_substring(c: char, s: Seq<char>)
    ensures
        is_substring(seq![c], s) <==> s.contains(c),
{
    if is_substring(seq![c], s) {
        let i = choose|i: int|
            0 <= i && i + 1 <= s.len() && #[trigger] s.subrange(i, i + 1) == seq![c];
        assert(s.subrange(i, i + 1)[0] == s[i]);
    }
    if s.contains(c) {
        let i = choose|i: int| 0 <= i < s.len() && s[i] == c;
        assert(s.subrange(i, i + 1) =~= seq![c]);
    }
}

/// Whether `s` has a NUL character, which a C string cannot hold.
pub fn contains_nul(s: &str) -> (r: bool)
    ensures
        r == has_nul(s@),
{
    proof {
        reveal_strlit("\0");
        assert("\0"@ =~= seq!['\0']);
        lemma_single_char_substring('\0', s@);
    }
    str_contains(s, "\0")
}

impl GeckoLogger {
    /// A logger with the table of `source` (see `FilterConfig::build`).
    pub fn new(source: Option<&str>, debug: bool, sink: SinkKind, critical_notes: bool) -> (r:
        GeckoLogger)
        ensures
            r@ == (LoggerView {
                directives: configured(
                    match source {
                        Some(s) => Some(s@),
                        None => None,
                    },
                    debug,
                ),
                sink,
                critical_notes,
            }),
    {
        GeckoLogger { filter: FilterConfig::build(source, debug), sink, critical_notes }
    }

    /// Whether a record of `level` for `target` passes the table.
    pub fn enabled(&self, target: &str, level: Level) -> (r: bool)
        ensures
            r == enabled_by(self@.directives, target@, level),
    {
        self.filter.enabled(target, level)
    }

    /// The most verbose threshold of the table, for the dispatcher to skip
    /// whatever lies above it.
    pub fn max_level(&self) -> (r: LevelFilter)
        ensures
            r == max_threshold(self@.directives),
    {
        self.filter.max_level()
    }

    /// Errors of a rendering target also go to the rendering crash note.
    pub fn should_log_to_gfx_critical_note(record: &LogRecord) -> (r: bool)
        ensures
            r == forwards_to_critical_note(record.level, record.target@),
    {
        proof {
            reveal_strlit("webrender");
            assert("webrender"@ =~= render_marker());
        }
        record.level == Level::Error && str_contains(record.target.as_str(), "webrender")
    }

    /// The crash-note write for `record`, where this logger forwards.
    pub fn maybe_log_to_gfx_critical_note(&self, record: &LogRecord) -> (r: Vec<SinkAction>)
        ensures
            actions_view(r@) == note_actions(self@, record@),
    {
        let mut r: Vec<SinkAction> = Vec::new();
        if self.critical_notes && Self::should_log_to_gfx_critical_note(record) && !contains_nul(
            record.message.as_str(),
        ) {
            r.push(SinkAction::CriticalNote { text: record.message.clone() });
        }
        assert(actions_view(r@) =~= note_actions(self@, record@));
        r
    }

    /// The sink write for `record`.
    pub fn log_out(&self, record: &LogRecord) -> (r: Vec<SinkAction>)
        ensures
            actions_view(r@) == out_actions(self@, record@),
    {
        let mut r: Vec<SinkAction> = Vec::new();
        match self.sink {
            SinkKind::Stream => {
                r.push(
                    SinkAction::Stream {
                        level: record.level,
                        target: record.target.clone(),
                        message: record.message.clone(),
                    },
                );
            },
            SinkKind::Native => {
                if !contains_nul(record.target.as_str()) && !contains_nul(
                    record.message.as_str(),
                ) {
                    r.push(
                        SinkAction::Native {
                            priority: native_priority_of(record.level),
                            tag: record.target.clone(),
                            text: record.message.clone(),
                        },
                    );
                }
            },
        }
        assert(actions_view(r@) =~= out_actions(self@, record@));
        r
    }

    /// What logging `record` does, in order: the crash note where it
    /// applies, then the sink. The caller has already checked `enabled`.
    pub fn log(&self, record: &LogRecord) -> (r: Vec<SinkAction>)
        ensures
            actions_view(r@) == log_actions(self@, record@),
    {
        let mut r = self.maybe_log_to_gfx_critical_note(record);
        let mut out = self.log_out(record);
        let ghost a = r@;
        let ghost b = out@;
        r.append(&mut out);
        assert(actions_view(r@) =~= actions_view(a) + actions_view(b));
        r
    }

    /// Writes are synchronous, so there is nothing to flush: no action.
    pub fn flush(&self) -> (r: Vec<SinkAction>)
        ensures
            r@.len() == 0,
    {
        Vec::new()
    }
}

/// An error of a rendering target, with crash notes on, is forwarded to the
/// crash note exactly once, ahead of the one ordinary sink write; a warning of
/// the same target is not forwarded at all.
pub proof fn law_render_errors_reach_the_note(l: LoggerView, r: RecordView)
    requires
        l.critical_notes,
        is_substring(render_marker(), r.1),
        !has_nul(r.2),
    ensures
        r.0 == Level::Error ==> log_actions(l, r) == seq![ActionView::CriticalNote(r.2)]
            + out_actions(l, r),
        r.0 == Level::Warn ==> log_actions(l, r) == out_actions(l, r),
        forall|i: int|
            0 <= i < out_actions(l, r).len() ==> !(#[trigger] out_actions(l, r)[i] is CriticalNote),
{
    assert(seq![] + out_actions(l, r) =~= out_actions(l, r));
}

/// The global logger slot as a value: empty, or the installed logger.
pub open spec fn installed_after(slot: Option<LoggerView>, l: LoggerView) -> Option<LoggerView> {
    match slot {
        Some(first) => Some(first),
        None => Some(l),
    }
}

/// What one log call does through the slot: nothing while it is empty or
/// where the record does not pass, else what the installed logger does.
pub open spec fn dispatch_actions(slot: Option<LoggerView>, r: RecordView) -> Seq<ActionView> {
    match slot {
        Some(l) => if enabled_by(l.directives, r.1, r.0) {
            log_actions(l, r)
        } else {
            seq![]
        },
        None => seq![],
    }
}

/// The writes to the ordinary sink among some actions.
pub open spec fn sink_writes(a: Seq<ActionView>) -> Seq<ActionView> {
    a.filter(|x: ActionView| !(x is CriticalNote))
}

/// The slot of the process-wide logger: empty at start, filled once, never
/// emptied again.
pub struct LoggerSlot {
    logger: Option<GeckoLogger>,
}

/// The slot already holds a logger.
#[derive(Clone, Copy, Debug, PartialEq, Eq, Structural)]
pub struct AlreadyInstalled;

impl View for LoggerSlot {
    type V = Option<LoggerView>;

    closed spec fn view(&self) -> Option<LoggerView> {
        match self.logger {
            Some(l) => Some(l@),
            None => None,
        }
    }
}

impl LoggerSlot {
    pub fn new() -> (r: LoggerSlot)
        ensures
            r@ is None,
    {
        LoggerSlot { logger: None }
    }

    pub fn is_installed(&self) -> (r: bool)
        ensures
            r == self@ is Some,
    {
        self.logger.is_some()
    }

    /// Installs `logger` where the slot is empty; a second install fails and
    /// leaves the first logger in place.
    pub fn install(&mut self, logger: GeckoLogger) -> (r: Result<(), AlreadyInstalled>)
        ensures
            final(self)@ == installed_after(old(self)@, logger@),
            r is Ok <==> old(self)@ is None,
    {
        if self.logger.is_some() {
            Err(AlreadyInstalled)
        } else {
            self.logger = Some(logger);
            Ok(())
        }
    }

    /// Whether a record passes: never while the slot is empty.
    pub fn enabled(&self, target: &str, level: Level) -> (r: bool)
        ensures
            r == match self@ {
                Some(l) => enabled_by(l.directives, target@, level),
                None => false,
            },
    {
        match &self.logger {
            Some(l) => l.enabled(target, level),
            None => false,
        }
    }

    /// What one log call does: the installed logger's actions for a record
    /// that passes its table, nothing otherwise.
    pub fn dispatch(&self, record: &LogRecord) -> (r: Vec<SinkAction>)
        ensures
            actions_view(r@) == dispatch_actions(self@, record@),
    {
        match &self.logger {
            Some(l) => {
                if l.enabled(record.target.as_str(), record.level) {
                    l.log(record)
                } else {
                    let r: Vec<SinkAction> = Vec::new();
                    assert(actions_view(r@) =~= Seq::<ActionView>::empty());
                    r
                }
            },
            None => {
                let r: Vec<SinkAction> = Vec::new();
                assert(actions_view(r@) =~= Seq::<ActionView>::empty());
                r
            },
        }
    }
}

/// Installing twice keeps the first logger, and one log call then writes
/// what that logger writes, to its sink at most once.
pub proof fn law_second_install_changes_nothing(
    first: LoggerView,
    second: LoggerView,
    r: RecordView,
)
    ensures
        installed_after(installed_after(None, first), second) == Some(first),
        dispatch_actions(installed_after(installed_after(None, first), second), r)
            == dispatch_actions(Some(first), r),
        sink_writes(dispatch_actions(installed_after(installed_after(None, first), second), r)).len()
            <= 1,
{
    let a = dispatch_actions(Some(first), r);
    let n = note_actions(first, r);
    let o = out_actions(first, r);
    if enabled_by(first.directives, r.1, r.0) {
        assert(a == n + o);
        let pred = |x: ActionView| !(x is CriticalNote);
        assert(n.all(|x: ActionView| !pred(x)));
        n.lemma_all_neg_filter_empty(pred);
        assert(sink_writes(o).len() <= 1) by {
            reveal(Seq::filter);
            if o.len() > 0 {
                assert(o.drop_last() =~= Seq::<ActionView>::empty());
            }
        }
        Seq::filter_distributes_over_add(n, o, |x: ActionView| !(x is CriticalNote));
    } else {
        assert(sink_writes(a) =~= Seq::<ActionView>::empty()) by {
            reveal(Seq::filter);
        }
    }
}

} // verus!
