//! Going from one to the next: of changes, diagnostics, windows and buffers.

use vstd::prelude::*;
use crate::desk::{far, nearer, turned, DeskView, Dir};
use crate::document::{cursor_line, line_count, DocView};
use crate::events::{diagnostic_place, diagnostic_stepped, place_before};
use crate::layout::Rect;
use crate::lsp_parse::DiagnosticView;
use crate::problems::{outranks, weightiest};
use crate::text::line_start;
use crate::upkeep::{change_line, next_start, prev_start};

verus! {

// ---- changes -----------------------------------------------------------------------

/// Lines in order.
pub open spec fn go_up(starts: Seq<usize>) -> bool {
    forall|i: int, j: int| 0 <= i < j < starts.len() ==> #[trigger] starts[i] < #[trigger] starts[j]
}

proof fn lemma_next_start(starts: Seq<usize>, line: int, i: int)
    requires
        0 <= i <= starts.len(),
        forall|j: int| 0 <= j < i ==> #[trigger] starts[j] <= line,
    ensures
        match next_start(starts, line, i) {
            None => starts.len() == 0,
            Some(s) => starts.contains(s) && ((s > line && exists|k: int|
                0 <= k < starts.len() && #[trigger] starts[k] == s && forall|j: int|
                    0 <= j < k ==> #[trigger] starts[j] <= line) || (s == starts[0] && forall|j: int|
                0 <= j < starts.len() ==> #[trigger] starts[j] <= line)),
        },
    decreases starts.len() - i,
{
    if i < starts.len() {
        if starts[i] <= line {
            lemma_next_start(starts, line, i + 1);
        } else {
            assert(starts[i] == starts[i]);
        }
    } else if starts.len() > 0 {
        assert(starts.contains(starts[0]));
    }
}

proof fn lemma_prev_start(starts: Seq<usize>, line: int, n: nat)
    requires
        n <= starts.len(),
        forall|j: int| n <= j < starts.len() ==> #[trigger] starts[j] >= line,
    ensures
        match prev_start(starts, line, n) {
            None => starts.len() == 0,
            Some(s) => starts.contains(s) && ((s < line && exists|k: int|
                0 <= k < starts.len() && #[trigger] starts[k] == s && forall|j: int|
                    k < j < starts.len() ==> #[trigger] starts[j] >= line) || (s == starts.last()
                && forall|j: int| 0 <= j < starts.len() ==> #[trigger] starts[j] >= line)),
        },
    decreases n,
{
    if n > 0 {
        if starts[n - 1] >= line {
            lemma_prev_start(starts, line, (n - 1) as nat);
        } else {
            assert(starts[n - 1] == starts[n - 1]);
        }
    } else if starts.len() > 0 {
        assert(starts.last() == starts[starts.len() - 1]);
        assert(starts.contains(starts[starts.len() - 1]));
    }
}

/// The next change is the nearest below the cursor's line, the one before the
/// nearest above it; behind the last comes the first, and before the first the
/// last. There is one whenever there is any.
pub proof fn law_the_nearest_change_is_gone_to(d: DocView, starts: Seq<usize>, k: int)
    requires
        go_up(starts),
        0 <= k < starts.len(),
    ensures
        ({
            let line = cursor_line(d.text, d.cursor as int);
            &&& change_line(d, starts, true) matches Some(s) && starts.contains(s) && (if s > line {
                starts[k] <= line || s <= starts[k]
            } else {
                starts[k] <= line && s <= starts[k]
            })
            &&& change_line(d, starts, false) matches Some(s) && starts.contains(s) && (if s < line {
                starts[k] >= line || starts[k] <= s
            } else {
                starts[k] >= line && starts[k] <= s
            })
        }),
{
    reveal(change_line);
    let line = cursor_line(d.text, d.cursor as int);
    lemma_next_start(starts, line, 0);
    lemma_prev_start(starts, line, starts.len());
    assert(starts.last() == starts[starts.len() - 1]);
}

// ---- diagnostics -------------------------------------------------------------------

/// Whether a diagnostic lies in a direction from a place of a document.
pub open spec fn lies_ahead(
    d: DocView,
    x: DiagnosticView,
    here: (int, int),
    forward: bool,
) -> bool {
    x.line < line_count(d.text) && if forward {
        place_before(here, diagnostic_place(d, x))
    } else {
        place_before(diagnostic_place(d, x), here)
    }
}

proof fn lemma_nearest(
    d: DocView,
    v: Seq<DiagnosticView>,
    here: (int, int),
    forward: bool,
    n: nat,
    k: int,
)
    requires
        n <= v.len(),
    ensures
        match crate::events::nearest(d, v, here, forward, n) {
            Some(i) => 0 <= i < n && lies_ahead(d, v[i], here, forward) && (0 <= k < n
                && lies_ahead(d, v[k], here, forward) ==> if forward {
                !place_before(diagnostic_place(d, v[k]), diagnostic_place(d, v[i]))
            } else {
                !place_before(diagnostic_place(d, v[i]), diagnostic_place(d, v[k]))
            }),
            None => 0 <= k < n ==> !lies_ahead(d, v[k], here, forward),
        },
    decreases n,
{
    if n > 0 {
        lemma_nearest(d, v, here, forward, (n - 1) as nat, k);
        lemma_nearest(d, v, here, forward, (n - 1) as nat, n - 1);
    }
}

/// The next diagnostic is the nearest behind the cursor, the one before the
/// nearest in front of it; where none lies that way, the walk goes round to
/// the one at the other end. Those on lines that are not there are left out.
pub proof fn law_the_nearest_diagnostic_is_gone_to(
    d: DocView,
    v: Seq<DiagnosticView>,
    forward: bool,
    k: int,
)
    requires
        0 <= k < v.len(),
    ensures
        ({
            let line = cursor_line(d.text, d.cursor as int);
            let here = (line, d.cursor - line_start(d.text, line));
            match diagnostic_stepped(d, v, forward) {
                Some(i) => 0 <= i < v.len() && v[i].line < line_count(d.text) && (if lies_ahead(
                    d,
                    v[i],
                    here,
                    forward,
                ) {
                    lies_ahead(d, v[k], here, forward) ==> if forward {
                        !place_before(diagnostic_place(d, v[k]), diagnostic_place(d, v[i]))
                    } else {
                        !place_before(diagnostic_place(d, v[i]), diagnostic_place(d, v[k]))
                    }
                } else {
                    !lies_ahead(d, v[k], here, forward) && (v[k].line < line_count(d.text)
                        ==> if forward {
                        !place_before(diagnostic_place(d, v[k]), diagnostic_place(d, v[i]))
                    } else {
                        !place_before(diagnostic_place(d, v[i]), diagnostic_place(d, v[k]))
                    })
                }),
                None => v[k].line >= line_count(d.text),
            }
        }),
{
    reveal(diagnostic_stepped);
    let line = cursor_line(d.text, d.cursor as int);
    let here = (line, d.cursor - line_start(d.text, line));
    lemma_nearest(d, v, here, forward, v.len(), k);
    let end = if forward {
        (-1, 0)
    } else {
        (line_count(d.text), 0)
    };
    lemma_nearest(d, v, end, forward, v.len(), k);
    if let Some(i) = diagnostic_stepped(d, v, forward) {
        lemma_nearest(d, v, here, forward, v.len(), i);
    }
}

proof fn lemma_weightiest(v: Seq<DiagnosticView>, line: int, n: nat, k: int)
    requires
        n <= v.len(),
    ensures
        match weightiest(v, line, n) {
            Some(i) => 0 <= i < n && v[i].line == line && (0 <= k < n && v[k].line == line
                ==> !outranks(v[k], v[i])),
            None => 0 <= k < n ==> v[k].line != line,
        },
    decreases n,
{
    if n > 0 {
        lemma_weightiest(v, line, (n - 1) as nat, k);
        lemma_weightiest(v, line, (n - 1) as nat, n - 1);
    }
}

/// The diagnostic that is told of a line is one of that line that no other
/// outranks; there is one whenever the line has any.
pub proof fn law_the_weightiest_diagnostic_is_told(v: Seq<DiagnosticView>, line: int, k: int)
    requires
        0 <= k < v.len(),
    ensures
        match weightiest(v, line, v.len()) {
            Some(i) => 0 <= i < v.len() && v[i].line == line && (v[k].line == line ==> v[i].severity
                <= v[k].severity),
            None => v[k].line != line,
        },
{
    lemma_weightiest(v, line, v.len(), k);
}

// ---- windows and buffers -----------------------------------------------------------

/// Whether the focus can go to a window in a direction.
pub open spec fn can_go(
    w: (usize, Rect),
    from: Rect,
    focused: usize,
    skip: Option<usize>,
    dir: Dir,
) -> bool {
    w.0 != focused && Some(w.0) != skip && match dir {
        Dir::Left => w.1.0 < from.0,
        Dir::Right => w.1.0 > from.0,
        Dir::Up => w.1.1 < from.1,
        Dir::Down => w.1.1 > from.1,
    }
}

proof fn lemma_nearest_window(
    wins: Seq<(usize, Rect)>,
    from: Rect,
    focused: usize,
    skip: Option<usize>,
    dir: Dir,
    n: nat,
    k: int,
)
    requires
        n <= wins.len(),
    ensures
        match crate::desk::nearest(wins, from, focused, skip, dir, n) {
            Some(i) => 0 <= i < n && can_go(wins[i], from, focused, skip, dir) && (0 <= k < n
                && can_go(wins[k], from, focused, skip, dir) ==> !nearer(
                far(dir, wins[k].1, from),
                far(dir, wins[i].1, from),
            )),
            None => 0 <= k < n ==> !can_go(wins[k], from, focused, skip, dir),
        },
    decreases n,
{
    if n > 0 {
        lemma_nearest_window(wins, from, focused, skip, dir, (n - 1) as nat, k);
        lemma_nearest_window(wins, from, focused, skip, dir, (n - 1) as nat, n - 1);
    }
}

/// Going to the window in a direction goes to the nearest one that lies that
/// way, its middle compared along the way first and then across it; there is
/// one whenever any window lies that way.
pub proof fn law_the_focus_goes_to_the_nearest_window(
    wins: Seq<(usize, Rect)>,
    from: Rect,
    focused: usize,
    skip: Option<usize>,
    dir: Dir,
    k: int,
)
    requires
        0 <= k < wins.len(),
    ensures
        match crate::desk::nearest(wins, from, focused, skip, dir, wins.len()) {
            Some(i) => 0 <= i < wins.len() && can_go(wins[i], from, focused, skip, dir) && (can_go(
                wins[k],
                from,
                focused,
                skip,
                dir,
            ) ==> !nearer(far(dir, wins[k].1, from), far(dir, wins[i].1, from))),
            None => !can_go(wins[k], from, focused, skip, dir),
        },
{
    lemma_nearest_window(wins, from, focused, skip, dir, wins.len(), k);
}

/// Turning to the next buffer and back again is back at the first; the next
/// one is one further on, and behind the last comes the first.
pub proof fn law_buffers_are_turned_round(v: DeskView)
    requires
        v.current < v.docs.len() <= usize::MAX,
    ensures
        turned(v, true).current == (if v.current + 1 < v.docs.len() {
            v.current + 1
        } else {
            0
        }),
        turned(turned(v, true), false) == v,
        turned(turned(v, false), true) == v,
        turned(v, true).docs == v.docs,
{
    reveal(turned);
    let n = v.docs.len() as int;
    let c = v.current as int;
    crate::selection_laws::lemma_round(c, n);
    let a = turned(v, true).current as int;
    let b = turned(v, false).current as int;
    crate::selection_laws::lemma_round(a, n);
    crate::selection_laws::lemma_round(b, n);
}

} // verus!
