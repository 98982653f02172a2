//! Recording what was typed, for repeating the last change and for macros, and
//! playing it back.
//!
//! Both play back inputs, not edits: they go through the same dispatch that
//! they went through the first time, so they act on the selection and the
//! cursors that are there then.

use vstd::prelude::*;
use crate::commands::Command;
use crate::keymap::Key;

verus! {

/// Selecting inputs kept in front of a change before they are dropped.
pub const SELECTION_PREFIX_CAP: usize = 32;

/// Playing back nested deeper than this is a macro that calls itself.
pub const MAX_REPLAY_DEPTH: usize = 20;

/// One recorded input.
#[derive(Debug)]
pub enum Input {
    Key(Key),
    Paste(String),
    /// A completion was accepted: so many characters before the cursor are
    /// deleted and the text goes in. The keys that did it would depend on what
    /// the menu offered at the time.
    Complete(usize, String),
}

pub enum InputView {
    Key(Key),
    Paste(Seq<char>),
    Complete(usize, Seq<char>),
}

impl View for Input {
    type V = InputView;

    open spec fn view(&self) -> InputView {
        match self {
            Input::Key(k) => InputView::Key(*k),
            Input::Paste(t) => InputView::Paste(t@),
            Input::Complete(n, t) => InputView::Complete(*n, t@),
        }
    }
}

pub open spec fn input_views(v: Seq<Input>) -> Seq<InputView> {
    Seq::new(v.len(), |i: int| v[i]@)
}

impl Input {
    pub fn copy(&self) -> (r: Input)
        ensures
            r@ == self@,
    {
        match self {
            Input::Key(k) => Input::Key(*k),
            Input::Paste(t) => Input::Paste(t.clone()),
            Input::Complete(n, t) => Input::Complete(*n, t.clone()),
        }
    }
}

fn copy_inputs(v: &Vec<Input>, n: usize) -> (r: Vec<Input>)
    requires
        n <= v@.len(),
    ensures
        input_views(r@) == input_views(v@).take(n as int),
{
    let mut out: Vec<Input> = Vec::new();
    let mut i: usize = 0;
    while i < n
        invariant
            i <= n <= v@.len(),
            out@.len() == i,
            forall|k: int| 0 <= k < i ==> (#[trigger] out@[k])@ == v@[k]@,
        decreases n - i,
    {
        out.push(v[i].copy());
        i += 1;
    }
    assert(input_views(out@) =~= input_views(v@).take(n as int));
    out
}

fn extend_inputs(out: &mut Vec<Input>, v: &Vec<Input>)
    ensures
        input_views(final(out)@) == input_views(old(out)@) + input_views(v@),
{
    let ghost start = out@;
    let mut i: usize = 0;
    while i < v.len()
        invariant
            i <= v@.len(),
            out@.len() == start.len() + i,
            forall|k: int| 0 <= k < start.len() ==> (#[trigger] out@[k])@ == start[k]@,
            forall|k: int| 0 <= k < i ==> (#[trigger] out@[start.len() + k])@ == v@[k]@,
        decreases v@.len() - i,
    {
        out.push(v[i].copy());
        i += 1;
    }
    assert forall|k: int| 0 <= k < out@.len() implies (#[trigger] input_views(out@)[k]) == (
    input_views(start) + input_views(v@))[k] by {
        if k >= start.len() {
            assert(out@[start.len() + (k - start.len())]@ == v@[k - start.len()]@);
        }
    }
    assert(input_views(out@) =~= input_views(start) + input_views(v@));
}

// ---- playing back -------------------------------------------------------------

/// Inputs being played back: which comes next, how many passes are left with
/// this one, and the command that started it.
pub struct Frame {
    pub inputs: Vec<Input>,
    pub next: usize,
    pub passes: usize,
    pub command: Command,
}

pub struct FrameView {
    pub inputs: Seq<InputView>,
    pub next: usize,
    pub passes: usize,
    pub command: Command,
}

impl View for Frame {
    type V = FrameView;

    open spec fn view(&self) -> FrameView {
        FrameView {
            inputs: input_views(self.inputs@),
            next: self.next,
            passes: self.passes,
            command: self.command,
        }
    }
}

pub open spec fn frame_views(v: Seq<Frame>) -> Seq<FrameView> {
    Seq::new(v.len(), |i: int| v[i]@)
}

/// A recorded macro, by its register.
pub open spec fn macro_from(v: Seq<(char, Vec<Input>)>, reg: char, i: int) -> Option<Seq<InputView>>
    decreases i,
{
    if i <= 0 || i > v.len() {
        None
    } else if v[i - 1].0 == reg {
        Some(input_views(v[i - 1].1@))
    } else {
        macro_from(v, reg, i - 1)
    }
}

pub open spec fn macros_view(v: Seq<(char, Vec<Input>)>) -> Map<char, Seq<InputView>> {
    Map::new(
        |c: char| macro_from(v, c, v.len() as int) is Some,
        |c: char| macro_from(v, c, v.len() as int)->0,
    )
}

pub struct Recorder {
    /// The inputs of the last change.
    pub last_change: Vec<Input>,
    /// The inputs of the command in progress.
    pub change_keys: Vec<Input>,
    /// Selecting commands since the last change, kept to go before the next.
    pub selection_prefix: Vec<Input>,
    /// The buffer and its revision when the command in progress began.
    pub change_start: (usize, u64),
    /// The command in progress went through a prompt or a picker.
    pub change_via_prompt: bool,
    /// The last command that a keymap dispatched.
    pub last_command: Option<Command>,
    /// What accepting a completion did.
    pub completion_effect: Option<Input>,
    /// The macro being recorded.
    pub macro_rec: Option<(char, Vec<Input>)>,
    /// The macros; of two in one register the later one counts.
    pub macros: Vec<(char, Vec<Input>)>,
    pub last_macro: Option<char>,
    /// What is being played back, the innermost last.
    pub frames: Vec<Frame>,
}

pub struct RecorderView {
    pub last_change: Seq<InputView>,
    pub change_keys: Seq<InputView>,
    pub selection_prefix: Seq<InputView>,
    pub change_start: (usize, u64),
    pub change_via_prompt: bool,
    pub last_command: Option<Command>,
    pub completion_effect: Option<InputView>,
    pub macro_rec: Option<(char, Seq<InputView>)>,
    pub macros: Map<char, Seq<InputView>>,
    pub last_macro: Option<char>,
    pub frames: Seq<FrameView>,
}

pub open spec fn opt_input(i: Option<Input>) -> Option<InputView> {
    match i {
        Some(x) => Some(x@),
        None => None,
    }
}

pub open spec fn rec_view(m: Option<(char, Vec<Input>)>) -> Option<(char, Seq<InputView>)> {
    match m {
        Some((c, v)) => Some((c, input_views(v@))),
        None => None,
    }
}

impl View for Recorder {
    type V = RecorderView;

    open spec fn view(&self) -> RecorderView {
        RecorderView {
            last_change: input_views(self.last_change@),
            change_keys: input_views(self.change_keys@),
            selection_prefix: input_views(self.selection_prefix@),
            change_start: self.change_start,
            change_via_prompt: self.change_via_prompt,
            last_command: self.last_command,
            completion_effect: opt_input(self.completion_effect),
            macro_rec: rec_view(self.macro_rec),
            macros: macros_view(self.macros@),
            last_macro: self.last_macro,
            frames: frame_views(self.frames@),
        }
    }
}

pub open spec fn nothing_recorded() -> RecorderView {
    RecorderView {
        last_change: Seq::empty(),
        change_keys: Seq::empty(),
        selection_prefix: Seq::empty(),
        change_start: (0, 0),
        change_via_prompt: false,
        last_command: None,
        completion_effect: None,
        macro_rec: None,
        macros: Map::empty(),
        last_macro: None,
        frames: Seq::empty(),
    }
}

/// Nothing is recorded while something is played back.
pub open spec fn replaying(r: RecorderView) -> bool {
    r.frames.len() > 0
}

/// An input noted, for the change in progress and for the macro being
/// recorded. The first of a command notes where it began.
pub open spec fn recorded(r: RecorderView, input: InputView, current: usize, revision: u64) -> RecorderView {
    let begun = if r.change_keys.len() == 0 {
        RecorderView {
            change_start: (current, revision),
            change_via_prompt: false,
            last_command: None,
            ..r
        }
    } else {
        r
    };
    RecorderView {
        change_keys: begun.change_keys.push(input),
        macro_rec: match begun.macro_rec {
            Some((c, v)) => Some((c, v.push(input))),
            None => None,
        },
        ..begun
    }
}

pub open spec fn without_last(v: Seq<InputView>) -> Seq<InputView> {
    if v.len() > 0 {
        v.drop_last()
    } else {
        v
    }
}

/// The input just noted taken back.
pub open spec fn unrecorded(r: RecorderView) -> RecorderView {
    if replaying(r) {
        r
    } else {
        RecorderView {
            change_keys: without_last(r.change_keys),
            macro_rec: match r.macro_rec {
                Some((c, v)) => Some((c, without_last(v))),
                None => None,
            },
            ..r
        }
    }
}

/// Where the editor stands after an input.
#[derive(Clone, Copy)]
pub struct Rest {
    /// A prompt, a picker or another pane takes the keys.
    pub prompting: bool,
    /// Nothing is half typed in normal mode.
    pub at_rest: bool,
    pub current: usize,
    pub revision: u64,
    pub selected: bool,
    pub extend: bool,
}

/// Whether a change that a command made is one to repeat.
pub open spec fn repeatable(c: Option<Command>) -> bool {
    match c {
        Some(c) => c != Command::Undo && c != Command::Redo && c != Command::RepeatLastChange && c
            != Command::MacroPlay && c != Command::MacroRecord && c != Command::Save && c
            != Command::FormatBuffer,
        None => true,
    }
}

/// Whether a command selects from where the cursor is.
pub open spec fn selects_from_cursor(c: Option<Command>) -> bool {
    match c {
        Some(c) => c == Command::SelectWordNext || c == Command::SelectWordPrev || c
            == Command::SelectWordEnd || c == Command::SelectLine || c == Command::SelectInside || c
            == Command::SelectAround || c == Command::ExpandSelection || c == Command::ExtendMode,
        None => false,
    }
}

/// What an input leaves recorded. Once the editor is at rest, the inputs since
/// it last was are one command: kept as the last change where it changed the
/// buffer, and kept to go before the next one where it selected from the
/// cursor.
pub open spec fn finished(r: RecorderView, rest: Rest) -> RecorderView {
    let via = r.change_via_prompt || rest.prompting;
    if !rest.at_rest {
        RecorderView { change_via_prompt: via, ..r }
    } else {
        let done = RecorderView { change_via_prompt: via, change_keys: Seq::empty(), ..r };
        if r.change_start.0 == rest.current && rest.revision != r.change_start.1 {
            RecorderView {
                selection_prefix: Seq::empty(),
                last_change: if repeatable(r.last_command) && !via && r.change_keys.len() > 0 {
                    r.selection_prefix + r.change_keys
                } else {
                    r.last_change
                },
                ..done
            }
        } else if rest.selected && (rest.extend || selects_from_cursor(r.last_command)) && !via {
            RecorderView {
                selection_prefix: (if r.selection_prefix.len() > SELECTION_PREFIX_CAP {
                    Seq::empty()
                } else {
                    r.selection_prefix
                }) + r.change_keys,
                ..done
            }
        } else {
            RecorderView { selection_prefix: Seq::empty(), ..done }
        }
    }
}

/// Playing back begun, where it is not nested too deep.
pub open spec fn replay_begun(
    r: RecorderView,
    inputs: Seq<InputView>,
    passes: usize,
    command: Command,
) -> RecorderView {
    RecorderView { frames: r.frames.push(FrameView { inputs, next: 0, passes, command }), ..r }
}

/// What comes next of what is played back.
pub enum Step {
    Input(Input),
    /// All of it has been played that this command started.
    Over(Command),
    Nothing,
}

pub enum StepView {
    Input(InputView),
    Over(Command),
    Nothing,
}

impl View for Step {
    type V = StepView;

    open spec fn view(&self) -> StepView {
        match self {
            Step::Input(i) => StepView::Input(i@),
            Step::Over(c) => StepView::Over(*c),
            Step::Nothing => StepView::Nothing,
        }
    }
}

/// The next step of a frame's pass, or the first of the next pass.
pub open spec fn stepped(r: RecorderView) -> (RecorderView, StepView) {
    if r.frames.len() == 0 {
        (r, StepView::Nothing)
    } else {
        let f = r.frames.last();
        let rest = r.frames.drop_last();
        if f.next < f.inputs.len() {
            (
                RecorderView { frames: rest.push(FrameView { next: (f.next + 1) as usize, ..f }), ..r },
                StepView::Input(f.inputs[f.next as int]),
            )
        } else if f.passes > 1 && f.inputs.len() > 0 {
            (
                RecorderView {
                    frames: rest.push(
                        FrameView { next: 1, passes: (f.passes - 1) as usize, ..f },
                    ),
                    ..r
                },
                StepView::Input(f.inputs[0]),
            )
        } else {
            (RecorderView { frames: rest, ..r }, StepView::Over(f.command))
        }
    }
}

/// The pass that is being played back ended where it is.
pub open spec fn pass_ended(r: RecorderView) -> RecorderView {
    if r.frames.len() == 0 {
        r
    } else {
        let f = r.frames.last();
        RecorderView {
            frames: r.frames.drop_last().push(
                FrameView { next: f.inputs.len() as usize, ..f },
            ),
            ..r
        }
    }
}

/// Recording a macro stopped: the keys of the command that stopped it are not
/// part of it.
pub open spec fn macro_stopped(r: RecorderView) -> RecorderView {
    match r.macro_rec {
        None => r,
        Some((reg, v)) => {
            let tail = if r.change_keys.len() <= v.len() {
                r.change_keys.len()
            } else {
                v.len()
            };
            RecorderView {
                macro_rec: None,
                macros: r.macros.insert(reg, v.take(v.len() - tail)),
                last_macro: Some(reg),
                ..r
            }
        },
    }
}

proof fn lemma_macro_push(v: Seq<(char, Vec<Input>)>, m: (char, Vec<Input>), c: char, i: int)
    requires
        0 <= i <= v.len(),
    ensures
        macro_from(v.push(m), c, i) == macro_from(v, c, i),
    decreases i,
{
    if i > 0 {
        lemma_macro_push(v, m, c, i - 1);
    }
}

impl Recorder {
    pub fn new() -> (r: Self)
        ensures
            r@ == nothing_recorded(),
    {
        let r = Recorder {
            last_change: Vec::new(),
            change_keys: Vec::new(),
            selection_prefix: Vec::new(),
            change_start: (0, 0),
            change_via_prompt: false,
            last_command: None,
            completion_effect: None,
            macro_rec: None,
            macros: Vec::new(),
            last_macro: None,
            frames: Vec::new(),
        };
        assert(r@.last_change =~= Seq::empty());
        assert(r@.change_keys =~= Seq::empty());
        assert(r@.selection_prefix =~= Seq::empty());
        assert(r@.macros =~= Map::empty());
        assert(r@.frames =~= Seq::empty());
        r
    }

    pub fn replaying(&self) -> (r: bool)
        ensures
            r == replaying(self@),
    {
        self.frames.len() > 0
    }

    /// Note an input.
    pub fn record(&mut self, input: Input, current: usize, revision: u64)
        ensures
            final(self)@ == recorded(old(self)@, input@, current, revision),
    {
        if self.change_keys.len() == 0 {
            self.change_start = (current, revision);
            self.change_via_prompt = false;
            self.last_command = None;
        }
        let ghost keys = self.change_keys@;
        let copy = input.copy();
        let ghost seen = input@;
        self.change_keys.push(input);
        assert(input_views(self.change_keys@) =~= input_views(keys).push(seen));
        let rec = self.macro_rec.take();
        if let Some((c, v)) = rec {
            let mut v = v;
            let ghost had = v@;
            v.push(copy);
            assert(input_views(v@) =~= input_views(had).push(seen));
            self.macro_rec = Some((c, v));
        }
    }

    /// Take back the input just noted.
    pub fn unrecord_last(&mut self)
        ensures
            final(self)@ == unrecorded(old(self)@),
    {
        if self.frames.len() > 0 {
            return ;
        }
        let ghost keys = self.change_keys@;
        let dropped = self.change_keys.pop();
        assert(input_views(self.change_keys@) =~= without_last(input_views(keys)));
        let rec = self.macro_rec.take();
        if let Some((c, v)) = rec {
            let mut v = v;
            let ghost had = v@;
            let dropped = v.pop();
            assert(input_views(v@) =~= without_last(input_views(had)));
            self.macro_rec = Some((c, v));
        }
    }

    fn repeatable(&self) -> (r: bool)
        ensures
            r == repeatable(self@.last_command),
    {
        match self.last_command {
            Some(c) => c != Command::Undo && c != Command::Redo && c != Command::RepeatLastChange && c
                != Command::MacroPlay && c != Command::MacroRecord && c != Command::Save && c
                != Command::FormatBuffer,
            None => true,
        }
    }

    fn selects_from_cursor(&self) -> (r: bool)
        ensures
            r == selects_from_cursor(self@.last_command),
    {
        match self.last_command {
            Some(c) => c == Command::SelectWordNext || c == Command::SelectWordPrev || c
                == Command::SelectWordEnd || c == Command::SelectLine || c == Command::SelectInside
                || c == Command::SelectAround || c == Command::ExpandSelection || c
                == Command::ExtendMode,
            None => false,
        }
    }

    /// After each input: keep what it was part of, once the editor is at rest.
    pub fn finish(&mut self, rest: Rest)
        ensures
            final(self)@ == finished(old(self)@, rest),
    {
        if rest.prompting {
            self.change_via_prompt = true;
        }
        if !rest.at_rest {
            return ;
        }
        let mut inputs: Vec<Input> = Vec::new();
        core::mem::swap(&mut inputs, &mut self.change_keys);
        assert(input_views(self.change_keys@) =~= Seq::empty());
        if self.change_start.0 == rest.current && rest.revision != self.change_start.1 {
            let mut prefix: Vec<Input> = Vec::new();
            core::mem::swap(&mut prefix, &mut self.selection_prefix);
            assert(input_views(self.selection_prefix@) =~= Seq::empty());
            if self.repeatable() && !self.change_via_prompt && inputs.len() > 0 {
                extend_inputs(&mut prefix, &inputs);
                self.last_change = prefix;
            }
            return ;
        }
        if rest.selected && (rest.extend || self.selects_from_cursor()) && !self.change_via_prompt {
            if self.selection_prefix.len() > SELECTION_PREFIX_CAP {
                self.selection_prefix = Vec::new();
                assert(input_views(self.selection_prefix@) =~= Seq::empty());
            }
            extend_inputs(&mut self.selection_prefix, &inputs);
        } else {
            self.selection_prefix = Vec::new();
            assert(input_views(self.selection_prefix@) =~= Seq::empty());
        }
    }

    /// Begin to play back the last change; false where it is nested too deep.
    pub fn replay_change(&mut self, passes: usize, command: Command) -> (begun: bool)
        ensures
            begun == (old(self)@.frames.len() < MAX_REPLAY_DEPTH),
            final(self)@ == (if begun {
                replay_begun(old(self)@, old(self)@.last_change, passes, command)
            } else {
                old(self)@
            }),
    {
        if self.frames.len() >= MAX_REPLAY_DEPTH {
            return false;
        }
        let inputs = copy_inputs(&self.last_change, self.last_change.len());
        assert(input_views(inputs@) =~= self@.last_change);
        let ghost had = self.frames@;
        let f = Frame { inputs, next: 0, passes, command };
        self.frames.push(f);
        assert(frame_views(self.frames@) =~= frame_views(had).push(f@));
        true
    }

    fn find_macro(&self, reg: char) -> (r: Option<usize>)
        ensures
            match r {
                Some(i) => i < self.macros@.len() && self@.macros.dom().contains(reg)
                    && self@.macros[reg] == input_views(self.macros@[i as int].1@),
                None => !self@.macros.dom().contains(reg),
            },
    {
        let mut i: usize = self.macros.len();
        while i > 0
            invariant
                i <= self.macros@.len(),
                macro_from(self.macros@, reg, self.macros@.len() as int) == macro_from(
                    self.macros@,
                    reg,
                    i as int,
                ),
            decreases i,
        {
            if self.macros[i - 1].0 == reg {
                return Some(i - 1);
            }
            i -= 1;
        }
        None
    }

    /// Whether there is a macro in a register.
    pub fn has_macro(&self, reg: char) -> (r: bool)
        ensures
            r == self@.macros.dom().contains(reg),
    {
        self.find_macro(reg).is_some()
    }

    /// Begin to play back a macro; false where it is nested too deep.
    pub fn replay_macro(&mut self, reg: char, passes: usize, command: Command) -> (begun: bool)
        requires
            old(self)@.macros.dom().contains(reg),
        ensures
            begun == (old(self)@.frames.len() < MAX_REPLAY_DEPTH),
            final(self)@ == (if begun {
                replay_begun(old(self)@, old(self)@.macros[reg], passes, command)
            } else {
                old(self)@
            }),
    {
        if self.frames.len() >= MAX_REPLAY_DEPTH {
            return false;
        }
        if let Some(i) = self.find_macro(reg) {
            let inputs = copy_inputs(&self.macros[i].1, self.macros[i].1.len());
            assert(input_views(inputs@) =~= self@.macros[reg]);
            let ghost had = self.frames@;
            let f = Frame { inputs, next: 0, passes, command };
            self.frames.push(f);
            assert(frame_views(self.frames@) =~= frame_views(had).push(f@));
        }
        true
    }

    /// The next step of what is being played back.
    pub fn next_step(&mut self) -> (r: Step)
        ensures
            r@ == stepped(old(self)@).1,
            final(self)@ == stepped(old(self)@).0,
    {
        let ghost had = self.frames@;
        match self.frames.pop() {
            None => Step::Nothing,
            Some(f) => {
                assert(had.last() == f);
                assert(self@.frames =~= frame_views(had).drop_last());
                assert(frame_views(had).last() == f@);
                let mut f = f;
                if f.next < f.inputs.len() {
                    let input = f.inputs[f.next].copy();
                    f.next += 1;
                    let ghost rest = self.frames@;
                    self.frames.push(f);
                    assert(self@.frames =~= frame_views(rest).push(f@));
                    return Step::Input(input);
                }
                if f.passes > 1 && f.inputs.len() > 0 {
                    let input = f.inputs[0].copy();
                    f.next = 1;
                    f.passes -= 1;
                    let ghost rest = self.frames@;
                    self.frames.push(f);
                    assert(self@.frames =~= frame_views(rest).push(f@));
                    return Step::Input(input);
                }
                Step::Over(f.command)
            },
        }
    }

    /// End the pass that is being played back.
    pub fn end_pass(&mut self)
        ensures
            final(self)@ == pass_ended(old(self)@),
    {
        let ghost had = self.frames@;
        if let Some(f) = self.frames.pop() {
            assert(had.last() == f);
            let mut f = f;
            let ghost rest = self.frames@;
            assert(frame_views(rest) =~= frame_views(had).drop_last());
            assert(frame_views(had).last() == f@);
            f.next = f.inputs.len();
            self.frames.push(f);
            assert(self@.frames =~= frame_views(rest).push(f@));
        } else {
            assert(self@.frames =~= frame_views(had));
        }
    }

    /// Stop recording: the register and how many inputs it holds, if a macro
    /// was being recorded.
    pub fn stop_macro(&mut self) -> (r: Option<(char, usize)>)
        ensures
            match r {
                Some((reg, n)) => old(self)@.macro_rec is Some && (old(self)@.macro_rec->0).0 == reg
                    && n == macro_stopped(old(self)@).macros[reg].len(),
                None => old(self)@.macro_rec is None,
            },
            final(self)@ == macro_stopped(old(self)@),
    {
        match self.macro_rec.take() {
            None => None,
            Some((reg, v)) => {
                let tail: usize = if self.change_keys.len() <= v.len() {
                    self.change_keys.len()
                } else {
                    v.len()
                };
                let n: usize = v.len() - tail;
                let kept = copy_inputs(&v, n);
                let ghost had = self.macros@;
                let ghost m = (reg, kept);
                self.macros.push((reg, kept));
                assert forall|c: char| macro_from(self.macros@, c, self.macros@.len() as int) == (
                if c == reg {
                    Some(input_views(m.1@))
                } else {
                    macro_from(had, c, had.len() as int)
                }) by {
                    lemma_macro_push(had, m, c, had.len() as int);
                }
                assert(self@.macros =~= macros_view(had).insert(reg, input_views(m.1@)));
                self.last_macro = Some(reg);
                Some((reg, n))
            },
        }
    }

    /// Begin to record into a register.
    pub fn start_macro(&mut self, reg: char)
        ensures
            final(self)@ == (RecorderView {
                macro_rec: Some((reg, Seq::empty())),
                ..old(self)@
            }),
    {
        let none: Vec<Input> = Vec::new();
        assert(input_views(none@) =~= Seq::empty());
        self.macro_rec = Some((reg, none));
    }
}

// ---- laws ---------------------------------------------------------------------

/// The inputs that are left to come of a frame.
pub open spec fn to_come(f: FrameView, n: nat) -> Seq<InputView>
    decreases n,
{
    if n == 0 {
        Seq::empty()
    } else {
        f.inputs + to_come(f, (n - 1) as nat)
    }
}

/// What a frame still gives before it is over.
pub open spec fn left_of(f: FrameView) -> Seq<InputView> {
    f.inputs.skip(f.next as int) + to_come(
        f,
        if f.passes > 0 {
            (f.passes - 1) as nat
        } else {
            0
        },
    )
}

/// Playing back gives the recorded inputs, in order, as often as was asked,
/// and then is over: each step is the first of what is left, and leaves the
/// rest.
pub proof fn law_replay_gives_the_inputs(r: RecorderView)
    requires
        r.frames.len() > 0,
        r.frames.last().inputs.len() > 0,
        r.frames.last().next <= r.frames.last().inputs.len() <= usize::MAX,
    ensures
        match stepped(r).1 {
            StepView::Input(i) => left_of(r.frames.last()) == seq![i] + left_of(
                stepped(r).0.frames.last(),
            ) && stepped(r).0.frames.drop_last() == r.frames.drop_last(),
            StepView::Over(c) => left_of(r.frames.last()).len() == 0 && c
                == r.frames.last().command && stepped(r).0.frames == r.frames.drop_last(),
            StepView::Nothing => false,
        },
{
    let f = r.frames.last();
    reveal_with_fuel(to_come, 2);
    match stepped(r).1 {
        StepView::Input(i) => {
            let g = stepped(r).0.frames.last();
            assert(stepped(r).0.frames.drop_last() =~= r.frames.drop_last());
            lemma_to_come_same(f, g, if g.passes > 0 {
                (g.passes - 1) as nat
            } else {
                0
            });
            if f.next < f.inputs.len() {
                assert(f.inputs.skip(f.next as int) =~= seq![i] + f.inputs.skip(f.next + 1));
            } else {
                assert(f.inputs.skip(f.next as int) =~= Seq::empty());
                assert(f.inputs =~= seq![i] + f.inputs.skip(1));
            }
            assert(left_of(f) =~= seq![i] + left_of(g));
        },
        StepView::Over(c) => {
            assert(f.inputs.skip(f.next as int) =~= Seq::empty());
            assert(stepped(r).0.frames =~= r.frames.drop_last());
        },
        StepView::Nothing => {},
    }
}

proof fn lemma_to_come_same(f: FrameView, g: FrameView, n: nat)
    requires
        f.inputs == g.inputs,
    ensures
        to_come(f, n) == to_come(g, n),
    decreases n,
{
    if n > 0 {
        lemma_to_come_same(f, g, (n - 1) as nat);
    }
}

} // verus!
