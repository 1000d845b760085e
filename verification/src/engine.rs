use crate::helpers::find_index_by_y;
use crate::helpers::spec_find_y;
use crate::matching::exact_match;
use crate::matching::fuzzy_match;
use crate::matching::spec_contains;
use crate::matching::spec_fuzzy_or_contains;
use crate::strutil::lower_of;
use crate::strutil::lowercase;
use crate::widget::Filter;
use crate::widget::Widget;
use crate::widget::WidgetV;
use crate::widget::views_of;
use vstd::prelude::*;

verus! {

/// Why the interaction engine returned: the user asked to quit, selected
/// a text widget, or committed an input widget.
#[derive(Debug, Clone, Copy, PartialEq, Eq, Structural)]
pub enum BreakCondition {
    QUIT,
    SELECTION,
    INPUT,
}

/// One keystroke, as the engine sees it.
#[derive(Debug, Clone, Copy, PartialEq, Eq, Structural)]
pub enum Key {
    Char(char),
    Enter,
    Up,
    Down,
    Left,
    Right,
    Backspace,
    Escape,
    Other,
}

/// One command for the terminal backend. The engine computes these; the
/// caller performs them.
#[derive(Debug, Clone)]
pub enum UiAction {
    Clear,
    Print { row: i32, col: usize, text: String },
    MoveCursor { row: i32, col: usize },
    SetCursorVisible { visible: bool },
    InsertChar { row: i32, col: usize, ch: char },
    DeleteChar { row: i32, col: usize },
}

/// Mathematical model of a terminal command.
pub ghost enum UiActionV {
    Clear,
    Print { row: int, col: int, text: Seq<char> },
    MoveCursor { row: int, col: int },
    SetCursorVisible { visible: bool },
    InsertChar { row: int, col: int, ch: char },
    DeleteChar { row: int, col: int },
}

impl View for UiAction {
    type V = UiActionV;

    open spec fn view(&self) -> UiActionV {
        match self {
            UiAction::Clear => UiActionV::Clear,
            UiAction::Print { row, col, text } => UiActionV::Print {
                row: *row as int,
                col: *col as int,
                text: text@,
            },
            UiAction::MoveCursor { row, col } => UiActionV::MoveCursor {
                row: *row as int,
                col: *col as int,
            },
            UiAction::SetCursorVisible { visible } => UiActionV::SetCursorVisible {
                visible: *visible,
            },
            UiAction::InsertChar { row, col, ch } => UiActionV::InsertChar {
                row: *row as int,
                col: *col as int,
                ch: *ch,
            },
            UiAction::DeleteChar { row, col } => UiActionV::DeleteChar {
                row: *row as int,
                col: *col as int,
            },
        }
    }
}

/// The models of a command list, in order.
pub open spec fn actions_of(a: Seq<UiAction>) -> Seq<UiActionV> {
    a.map_values(|x: UiAction| x@)
}

/// The engine's screen state: the cursor, the vertical translation of the
/// widget list against the screen, the lowest reachable row, and the
/// screen height.
#[derive(Debug, Clone, Copy, PartialEq, Eq, Structural)]
pub struct Engine {
    pub cursor_x: usize,
    pub cursor_y: usize,
    pub scroll_offset: i32,
    pub limit: usize,
    pub height: usize,
}

/// What holds of the engine between keystrokes: a non-empty widget list of
/// a size the rows can count, a non-positive scroll, the lowest reachable
/// row tied to the scroll, the cursor above it, and every widget small
/// enough to edit.
pub open spec fn engine_wf(e: Engine, model: Seq<WidgetV>) -> bool {
    &&& 1 <= model.len() <= 0x4000_0000
    &&& e.scroll_offset <= 0
    &&& e.limit == model.len() - 1 + e.scroll_offset
    &&& e.cursor_y <= e.limit
    &&& e.cursor_x + 3 <= usize::MAX
    &&& e.height >= 1
    &&& forall|i: int| 0 <= i < model.len() ==> (#[trigger] model[i]).wf()
}

// ---------------------------------------------------------------------------
// The render pass
// ---------------------------------------------------------------------------

/// How many of the first `i` widgets are shown.
pub open spec fn count_shown(model: Seq<WidgetV>, i: int) -> int
    decreases i,
{
    if i <= 0 {
        0
    } else {
        count_shown(model, i - 1) + if model[i - 1].shown() {
            1int
        } else {
            0int
        }
    }
}

/// The row the render pass assigns to widget `i`: shown widgets take
/// consecutive rows from the scroll offset up, hidden rows collapse.
pub open spec fn row_of(model: Seq<WidgetV>, i: int, scroll: int) -> int {
    if model[i].shown() {
        scroll + count_shown(model, i)
    } else {
        -1
    }
}

/// The widget list after a render pass: every widget carries its row.
pub open spec fn drawn(model: Seq<WidgetV>, scroll: int) -> Seq<WidgetV> {
    model.map(|i: int, w: WidgetV| w.with_y(row_of(model, i, scroll)))
}

/// The print commands of a render pass over the first `i` widgets: one
/// line per shown widget, label then content, at the left margin.
pub open spec fn draw_prints(model: Seq<WidgetV>, scroll: int, i: int) -> Seq<UiActionV>
    decreases i,
{
    if i <= 0 {
        Seq::empty()
    } else {
        let rest = draw_prints(model, scroll, i - 1);
        if model[i - 1].shown() {
            rest.push(
                UiActionV::Print {
                    row: scroll + count_shown(model, i - 1),
                    col: 2,
                    text: model[i - 1].label() + model[i - 1].content(),
                },
            )
        } else {
            rest
        }
    }
}

/// All commands of a render pass: clear the window, then print the shown
/// widgets in order.
pub open spec fn draw_actions(model: Seq<WidgetV>, scroll: int) -> Seq<UiActionV> {
    seq![UiActionV::Clear] + draw_prints(model, scroll, model.len() as int)
}

/// The count of shown widgets lies between zero and the count of widgets.
pub proof fn lemma_count_shown_bounds(model: Seq<WidgetV>, i: int)
    ensures
        0 <= count_shown(model, i) <= vstd::math::max(i, 0),
    decreases i,
{
    if i <= 0 {
    } else {
        lemma_count_shown_bounds(model, i - 1);
    }
}

/// A shown widget pushes every later count past its own row.
pub proof fn lemma_count_shown_step(model: Seq<WidgetV>, i: int, j: int)
    requires
        0 <= i < j,
        model[i].shown(),
    ensures
        count_shown(model, j) >= count_shown(model, i) + 1,
    decreases j - i,
{
    if j == i + 1 {
    } else {
        lemma_count_shown_step(model, i, j - 1);
    }
}

/// After a render pass every widget sits at or below the scroll offset or
/// is hidden, no two rendered widgets share a row, and every input widget
/// is rendered.
pub proof fn lemma_draw_rows(model: Seq<WidgetV>, scroll: int)
    ensures
        forall|i: int|
            0 <= i < model.len() ==> (#[trigger] drawn(model, scroll)[i]).y() >= scroll || drawn(
                model,
                scroll,
            )[i].y() == -1,
        forall|i: int|
            0 <= i < model.len() && model[i].is_input() ==> (#[trigger] drawn(model, scroll)[i]).y()
                >= scroll,
        forall|i: int, j: int|
            0 <= i < j < model.len() && (#[trigger] drawn(model, scroll)[i]).y() >= 0 && (
            #[trigger] drawn(model, scroll)[j]).y() >= 0 ==> drawn(model, scroll)[i].y() != drawn(
                model,
                scroll,
            )[j].y(),
{
    assert forall|i: int| 0 <= i < model.len() implies (#[trigger] drawn(model, scroll)[i]).y()
        >= scroll || drawn(model, scroll)[i].y() == -1 by {
        lemma_count_shown_bounds(model, i);
    }
    assert forall|i: int|
        0 <= i < model.len() && model[i].is_input() implies (#[trigger] drawn(
        model,
        scroll,
    )[i]).y() >= scroll by {
        lemma_count_shown_bounds(model, i);
    }
    assert forall|i: int, j: int|
        0 <= i < j < model.len() && (#[trigger] drawn(model, scroll)[i]).y() >= 0 && (
        #[trigger] drawn(model, scroll)[j]).y() >= 0 implies drawn(model, scroll)[i].y() != drawn(
        model,
        scroll,
    )[j].y() by {
        if model[i].shown() && model[j].shown() {
            lemma_count_shown_step(model, i, j);
        }
    }
}

/// Build a widget equal to `w` at another row.
fn widget_with_y(w: &Widget, new_y: i32) -> (r: Widget)
    ensures
        r@ == w@.with_y(new_y as int),
{
    match w {
        Widget::Input { y: _, filter, label, content, selectable, hidden, id } => Widget::Input {
            y: new_y,
            filter: *filter,
            label: label.clone(),
            content: content.clone(),
            selectable: *selectable,
            hidden: *hidden,
            id: *id,
        },
        Widget::Text { y: _, content, selectable, show, id } => Widget::Text {
            y: new_y,
            content: content.clone(),
            selectable: *selectable,
            show: *show,
            id: *id,
        },
    }
}

/// Build a widget equal to `w` with another `show` flag; inputs are
/// returned unchanged.
fn widget_with_show(w: &Widget, new_show: bool) -> (r: Widget)
    ensures
        r@ == w@.with_show(new_show),
{
    match w {
        Widget::Input { y, filter, label, content, selectable, hidden, id } => Widget::Input {
            y: *y,
            filter: *filter,
            label: label.clone(),
            content: content.clone(),
            selectable: *selectable,
            hidden: *hidden,
            id: *id,
        },
        Widget::Text { y, content, selectable, show: _, id } => Widget::Text {
            y: *y,
            content: content.clone(),
            selectable: *selectable,
            show: new_show,
            id: *id,
        },
    }
}

/// Draw the widgets: assign each its row as `drawn` describes and return
/// the commands that put the shown widgets on the screen.
pub fn draw(model: &mut Vec<Widget>, scroll_offset: i32) -> (cmds: Vec<UiAction>)
    requires
        old(model)@.len() <= 0x4000_0000,
        -0x4000_0000 <= scroll_offset <= 0,
    ensures
        views_of(final(model)@) == drawn(views_of(old(model)@), scroll_offset as int),
        actions_of(cmds@) == draw_actions(views_of(old(model)@), scroll_offset as int),
{
    let ghost mv = views_of(model@);
    let n = model.len();
    let mut cmds: Vec<UiAction> = Vec::new();
    cmds.push(UiAction::Clear);
    let mut row: i32 = scroll_offset;
    let mut i: usize = 0;
    proof {
        assert(actions_of(cmds@) =~= seq![UiActionV::Clear] + draw_prints(
            mv,
            scroll_offset as int,
            0,
        ));
    }
    while i < n
        invariant
            n == model@.len(),
            mv.len() == n,
            n <= 0x4000_0000,
            -0x4000_0000 <= scroll_offset <= 0,
            i <= n,
            forall|k: int| i <= k < n ==> (#[trigger] model@[k])@ == mv[k],
            forall|k: int|
                0 <= k < i ==> (#[trigger] model@[k])@ == mv[k].with_y(
                    row_of(mv, k, scroll_offset as int),
                ),
            0 <= count_shown(mv, i as int) <= i,
            row == scroll_offset + count_shown(mv, i as int),
            actions_of(cmds@) == seq![UiActionV::Clear] + draw_prints(
                mv,
                scroll_offset as int,
                i as int,
            ),
        decreases n - i,
    {
        let shown: bool;
        let text: String;
        match &model[i] {
            Widget::Input { label, content, .. } => {
                shown = true;
                let mut t = label.clone();
                t.append(content.as_str());
                text = t;
            },
            Widget::Text { content, show, .. } => {
                shown = *show;
                text = content.clone();
            },
        }
        proof {
            assert(shown == mv[i as int].shown());
            assert(text@ =~= mv[i as int].label() + mv[i as int].content());
            assert(count_shown(mv, i + 1) == count_shown(mv, i as int) + (if mv[i as int].shown() {
                1int
            } else {
                0int
            }));
        }
        if shown {
            let ghost cmds0 = cmds@;
            cmds.push(UiAction::Print { row, col: 2, text });
            proof {
                assert(actions_of(cmds@) =~= actions_of(cmds0).push(
                    UiActionV::Print {
                        row: scroll_offset + count_shown(mv, i as int),
                        col: 2,
                        text: mv[i as int].label() + mv[i as int].content(),
                    },
                ));
                assert(actions_of(cmds@) =~= seq![UiActionV::Clear] + draw_prints(
                    mv,
                    scroll_offset as int,
                    i + 1,
                ));
            }
            let w = widget_with_y(&model[i], row);
            model[i] = w;
            row = row + 1;
        } else {
            let w = widget_with_y(&model[i], -1);
            model[i] = w;
            proof {
                assert(actions_of(cmds@) =~= seq![UiActionV::Clear] + draw_prints(
                    mv,
                    scroll_offset as int,
                    i + 1,
                ));
            }
        }
        i += 1;
    }
    proof {
        assert forall|k: int| 0 <= k < n implies views_of(model@)[k] == drawn(
            mv,
            scroll_offset as int,
        )[k] by {
            assert(views_of(model@)[k] == model@[k]@);
        }
        assert(views_of(model@) =~= drawn(mv, scroll_offset as int));
    }
    cmds
}

// ---------------------------------------------------------------------------
// Filtering
// ---------------------------------------------------------------------------

/// Whether a text widget with the given content is shown under the given
/// mode and query: everything is shown with the filter off or the query
/// empty; an exact filter asks the lowercased content to contain the
/// lowercased query; a fuzzy filter asks for a fuzzy match or plain
/// containment.
pub open spec fn spec_show_after(mode: Filter, query: Seq<char>, content: Seq<char>) -> bool {
    if mode == Filter::Off || query.len() == 0 {
        true
    } else if mode == Filter::Exact {
        spec_contains(lower_of(content), lower_of(query))
    } else {
        spec_fuzzy_or_contains(lower_of(query), lower_of(content))
    }
}

/// The widget list after one filter pass: text widgets get their `show`
/// flag from the rule above, inputs are untouched.
pub open spec fn filtered(model: Seq<WidgetV>, mode: Filter, query: Seq<char>) -> Seq<WidgetV> {
    model.map(
        |i: int, w: WidgetV|
            if w.is_input() {
                w
            } else {
                w.with_show(spec_show_after(mode, query, w.content()))
            },
    )
}

/// Filter the text widgets of the model against the query typed into an
/// input widget.
pub fn filter_widgets(model: &mut Vec<Widget>, filter: Filter, content: &str)
    ensures
        views_of(final(model)@) == filtered(views_of(old(model)@), filter, content@),
{
    let ghost mv = views_of(model@);
    let n = model.len();
    let off = filter == Filter::Off || content.is_empty();
    let query_lower: String = lowercase(content);
    let mut i: usize = 0;
    while i < n
        invariant
            n == model@.len(),
            mv.len() == n,
            i <= n,
            off == (filter == Filter::Off || content@.len() == 0),
            query_lower@ == lower_of(content@),
            query_lower@.len() <= usize::MAX / 2,
            forall|k: int| i <= k < n ==> (#[trigger] model@[k])@ == mv[k],
            forall|k: int|
                0 <= k < i ==> (#[trigger] model@[k])@ == filtered(mv, filter, content@)[k],
        decreases n - i,
    {
        let is_text = match &model[i] {
            Widget::Input { .. } => false,
            Widget::Text { .. } => true,
        };
        if is_text {
            let show: bool;
            if off {
                show = true;
            } else {
                let content_lower = match &model[i] {
                    Widget::Text { content: wc, .. } => lowercase(wc.as_str()),
                    Widget::Input { .. } => String::new(),
                };
                if filter == Filter::Exact {
                    show = exact_match(content_lower.as_str(), query_lower.as_str());
                } else {
                    show = fuzzy_match(query_lower.as_str(), content_lower.as_str())
                        || exact_match(content_lower.as_str(), query_lower.as_str());
                }
            }
            proof {
                assert(show == spec_show_after(filter, content@, mv[i as int].content()));
            }
            let w = widget_with_show(&model[i], show);
            model[i] = w;
        }
        proof {
            assert(model@[i as int]@ == filtered(mv, filter, content@)[i as int]);
        }
        i += 1;
    }
    proof {
        assert forall|k: int| 0 <= k < n implies views_of(model@)[k] == filtered(
            mv,
            filter,
            content@,
        )[k] by {
            assert(views_of(model@)[k] == model@[k]@);
        }
        assert(views_of(model@) =~= filtered(mv, filter, content@));
    }
}

/// With the filter off or the query empty, every text widget is shown.
pub proof fn lemma_filter_off_shows_all(model: Seq<WidgetV>, mode: Filter, query: Seq<char>)
    requires
        mode == Filter::Off || query.len() == 0,
    ensures
        forall|i: int| 0 <= i < model.len() ==> (#[trigger] filtered(model, mode, query)[i]).shown(),
{
}

/// Filtering twice with the same mode and query changes nothing the
/// second time: the `show` flags depend on the contents alone, which a
/// filter pass never touches.
pub proof fn lemma_filter_idempotent(model: Seq<WidgetV>, mode: Filter, query: Seq<char>)
    ensures
        filtered(filtered(model, mode, query), mode, query) == filtered(model, mode, query),
{
    assert(filtered(filtered(model, mode, query), mode, query) =~= filtered(model, mode, query));
}

// ---------------------------------------------------------------------------
// The keystroke state machine, specification
// ---------------------------------------------------------------------------

/// The column at the end of an input's text: label, then content.
pub open spec fn end_of_input_x(w: WidgetV) -> int {
    w.label().len() + w.content().len() as int
}

/// Where the cursor starts: at the end of the input on row zero, else at
/// the left edge.
pub open spec fn init_cursor_x(mv: Seq<WidgetV>) -> int {
    match spec_find_y(mv, 0) {
        Some(i) => if mv[i].is_input() {
            end_of_input_x(mv[i])
        } else {
            0
        },
        None => 0,
    }
}

/// The engine state at the start of an interaction.
pub open spec fn init_engine(mv: Seq<WidgetV>, height: usize) -> Engine {
    Engine {
        cursor_x: init_cursor_x(mv) as usize,
        cursor_y: 0,
        scroll_offset: 0,
        limit: (mv.len() - 1) as usize,
        height: height,
    }
}

/// The commands of the start of an interaction: hide the cursor over a
/// text row, place the cursor, draw.
pub open spec fn init_actions(mv: Seq<WidgetV>) -> Seq<UiActionV> {
    let vis = match spec_find_y(mv, 0) {
        Some(i) => if mv[i].is_input() {
            Seq::<UiActionV>::empty()
        } else {
            seq![UiActionV::SetCursorVisible { visible: false }]
        },
        None => seq![UiActionV::SetCursorVisible { visible: false }],
    };
    vis + seq![UiActionV::MoveCursor { row: 0, col: init_cursor_x(mv) }] + draw_actions(mv, 0)
}

/// The column after a left arrow: one cell left, stopping at the label's
/// end, and only over an input row.
pub open spec fn left_x(e: Engine, mv: Seq<WidgetV>) -> int {
    match spec_find_y(mv, e.cursor_y as int) {
        Some(i) => if mv[i].is_input() && e.cursor_x > mv[i].label().len() {
            e.cursor_x - 1
        } else {
            e.cursor_x as int
        },
        None => e.cursor_x as int,
    }
}

/// The column after a right arrow: one cell right, stopping at the end of
/// the content, and only over an input row.
pub open spec fn right_x(e: Engine, mv: Seq<WidgetV>) -> int {
    match spec_find_y(mv, e.cursor_y as int) {
        Some(i) => if mv[i].is_input() && e.cursor_x < end_of_input_x(mv[i]) {
            e.cursor_x + 1
        } else {
            e.cursor_x as int
        },
        None => e.cursor_x as int,
    }
}

/// An up arrow scrolls when the cursor already sits on the top row and
/// rows hide above it.
pub open spec fn up_scrolls(e: Engine) -> bool {
    e.scroll_offset < 0 && e.cursor_y == 0
}

/// The scroll phase of an up arrow: everything shifts one row down and
/// the cursor lands on row one, so the later move phase returns it to the
/// top.
pub open spec fn up_phase1(e: Engine, mv: Seq<WidgetV>) -> (Engine, Seq<WidgetV>) {
    if up_scrolls(e) {
        (
            Engine {
                scroll_offset: (e.scroll_offset + 1) as i32,
                cursor_y: 1,
                limit: (e.limit + 1) as usize,
                ..e
            },
            drawn(mv, e.scroll_offset + 1),
        )
    } else {
        (e, mv)
    }
}

/// The state after an up arrow: after any scroll the cursor moves one row
/// up and, over an input row, to the end of its text.
pub open spec fn up_state(e: Engine, mv: Seq<WidgetV>) -> (Engine, Seq<WidgetV>) {
    let (e1, m1) = up_phase1(e, mv);
    if e1.cursor_y > 0 {
        let ny = (e1.cursor_y - 1) as usize;
        match spec_find_y(m1, ny as int) {
            Some(i) => if m1[i].is_input() {
                (Engine { cursor_y: ny, cursor_x: end_of_input_x(m1[i]) as usize, ..e1 }, m1)
            } else {
                (Engine { cursor_y: ny, ..e1 }, m1)
            },
            None => (Engine { cursor_y: ny, ..e1 }, m1),
        }
    } else {
        (e1, m1)
    }
}

/// The commands of an up arrow: redraw when scrolled, blank the selection
/// carrot, then show the cursor over an input or print the carrot over a
/// text row.
pub open spec fn up_actions(e: Engine, mv: Seq<WidgetV>) -> Seq<UiActionV> {
    let scroll_part = if up_scrolls(e) {
        draw_actions(mv, e.scroll_offset + 1)
    } else {
        Seq::<UiActionV>::empty()
    };
    let (e1, m1) = up_phase1(e, mv);
    if e1.cursor_y > 0 {
        let ny = e1.cursor_y - 1;
        let blank = UiActionV::Print { row: e1.cursor_y as int, col: 0, text: " "@ };
        match spec_find_y(m1, ny) {
            Some(i) => if m1[i].is_input() {
                scroll_part + seq![blank, UiActionV::SetCursorVisible { visible: true }]
            } else {
                scroll_part + seq![
                    blank,
                    UiActionV::SetCursorVisible { visible: false },
                    UiActionV::Print { row: ny, col: 0, text: ">"@ },
                ]
            },
            None => scroll_part + seq![
                blank,
                UiActionV::SetCursorVisible { visible: false },
                UiActionV::Print { row: ny, col: 0, text: ">"@ },
            ],
        }
    } else {
        scroll_part
    }
}

/// A down arrow moves while rows remain below the cursor.
pub open spec fn down_moves(e: Engine) -> bool {
    e.cursor_y < e.limit
}

/// A down arrow scrolls when the move would leave the screen.
pub open spec fn down_scrolls(e: Engine) -> bool {
    down_moves(e) && e.cursor_y + 1 > e.height - 1
}

/// The move-or-scroll phase of a down arrow: one row down, or a scroll
/// that shifts everything one row up while the cursor keeps its row.
pub open spec fn down_phase1(e: Engine, mv: Seq<WidgetV>) -> (Engine, Seq<WidgetV>) {
    if !down_moves(e) {
        (e, mv)
    } else if down_scrolls(e) {
        (
            Engine {
                scroll_offset: (e.scroll_offset - 1) as i32,
                limit: (e.limit - 1) as usize,
                ..e
            },
            drawn(mv, e.scroll_offset - 1),
        )
    } else {
        (Engine { cursor_y: (e.cursor_y + 1) as usize, ..e }, mv)
    }
}

/// The state after a down arrow: after the move or scroll the cursor
/// lands at the end of an input's text, or keeps its column over a text.
pub open spec fn down_state(e: Engine, mv: Seq<WidgetV>) -> (Engine, Seq<WidgetV>) {
    if !down_moves(e) {
        (e, mv)
    } else {
        let (e1, m1) = down_phase1(e, mv);
        match spec_find_y(m1, e1.cursor_y as int) {
            Some(i) => if m1[i].is_input() {
                (Engine { cursor_x: end_of_input_x(m1[i]) as usize, ..e1 }, m1)
            } else {
                (e1, m1)
            },
            None => (e1, m1),
        }
    }
}

/// The commands of a down arrow: blank the carrot, redraw when scrolled,
/// then show the cursor over an input or print the carrot.
pub open spec fn down_actions(e: Engine, mv: Seq<WidgetV>) -> Seq<UiActionV> {
    if !down_moves(e) {
        Seq::<UiActionV>::empty()
    } else {
        let blank = UiActionV::Print { row: e.cursor_y as int, col: 0, text: " "@ };
        let scroll_part = if down_scrolls(e) {
            draw_actions(mv, e.scroll_offset - 1)
        } else {
            Seq::<UiActionV>::empty()
        };
        let (e1, m1) = down_phase1(e, mv);
        match spec_find_y(m1, e1.cursor_y as int) {
            Some(i) => if m1[i].is_input() {
                seq![blank] + scroll_part + seq![UiActionV::SetCursorVisible { visible: true }]
            } else {
                seq![blank] + scroll_part + seq![
                    UiActionV::SetCursorVisible { visible: false },
                    UiActionV::Print { row: e1.cursor_y as int, col: 0, text: ">"@ },
                ]
            },
            None => seq![blank] + scroll_part + seq![
                UiActionV::SetCursorVisible { visible: false },
                UiActionV::Print { row: e1.cursor_y as int, col: 0, text: ">"@ },
            ],
        }
    }
}

/// What pressing enter selects: the first widget on the cursor's row, an
/// input for further editing or a text as the selection; with no widget
/// there the engine quits.
pub open spec fn enter_result(mv: Seq<WidgetV>, cy: int) -> (BreakCondition, int) {
    match spec_find_y(mv, cy) {
        Some(i) => if mv[i].is_input() {
            (BreakCondition::INPUT, mv[i].id())
        } else {
            (BreakCondition::SELECTION, mv[i].id())
        },
        None => (BreakCondition::QUIT, 0),
    }
}

/// What a backspace edits: over an input row with the cursor inside the
/// content, the character left of the cursor leaves that content.
pub open spec fn backspace_edit(e: Engine, mv: Seq<WidgetV>) -> Option<(int, Seq<char>)> {
    match spec_find_y(mv, e.cursor_y as int) {
        Some(i) => if mv[i].is_input() && mv[i].label().len() < e.cursor_x && e.cursor_x
            <= end_of_input_x(mv[i]) {
            let c = mv[i].content();
            let pos = e.cursor_x - 1 - mv[i].label().len();
            Some((i, c.subrange(0, pos) + c.subrange(pos + 1, c.len() as int)))
        } else {
            None
        },
        None => None,
    }
}

/// The state after a backspace: the cursor moves one cell left, the
/// content loses one character, and a live filter is re-applied with a
/// redraw.
pub open spec fn backspace_state(e: Engine, mv: Seq<WidgetV>) -> (Engine, Seq<WidgetV>) {
    match backspace_edit(e, mv) {
        Some((i, nc)) => {
            let e2 = Engine { cursor_x: (e.cursor_x - 1) as usize, ..e };
            let m2 = mv.update(i, mv[i].with_content(nc));
            if mv[i].filter() != Filter::Off {
                (e2, drawn(filtered(m2, mv[i].filter(), nc), e.scroll_offset as int))
            } else {
                (e2, m2)
            }
        },
        None => (e, mv),
    }
}

/// The commands of a backspace: delete the cell under the new cursor
/// position, and redraw when a live filter ran.
pub open spec fn backspace_actions(e: Engine, mv: Seq<WidgetV>) -> Seq<UiActionV> {
    match backspace_edit(e, mv) {
        Some((i, nc)) => {
            let del = UiActionV::DeleteChar { row: e.cursor_y as int, col: e.cursor_x + 1 };
            if mv[i].filter() != Filter::Off {
                seq![del] + draw_actions(
                    filtered(mv.update(i, mv[i].with_content(nc)), mv[i].filter(), nc),
                    e.scroll_offset as int,
                )
            } else {
                seq![del]
            }
        },
        None => Seq::<UiActionV>::empty(),
    }
}

/// What typing a character edits: over an input row with the cursor in
/// range and room left, the character enters the content at the cursor.
pub open spec fn char_edit(e: Engine, mv: Seq<WidgetV>, c: char) -> Option<(int, Seq<char>)> {
    match spec_find_y(mv, e.cursor_y as int) {
        Some(i) => if mv[i].is_input() && mv[i].label().len() <= e.cursor_x && e.cursor_x
            <= end_of_input_x(mv[i]) && end_of_input_x(mv[i]) + 3 < usize::MAX {
            let cs = mv[i].content();
            let pos = e.cursor_x - mv[i].label().len();
            Some((i, cs.subrange(0, pos).push(c) + cs.subrange(pos, cs.len() as int)))
        } else {
            None
        },
        None => None,
    }
}

/// The state after typing a character: the cursor moves one cell right,
/// the content gains the character, and a live filter is re-applied with
/// a redraw.
pub open spec fn char_state(e: Engine, mv: Seq<WidgetV>, c: char) -> (Engine, Seq<WidgetV>) {
    match char_edit(e, mv, c) {
        Some((i, nc)) => {
            let e2 = Engine { cursor_x: (e.cursor_x + 1) as usize, ..e };
            let m2 = mv.update(i, mv[i].with_content(nc));
            if mv[i].filter() != Filter::Off {
                (e2, drawn(filtered(m2, mv[i].filter(), nc), e.scroll_offset as int))
            } else {
                (e2, m2)
            }
        },
        None => (e, mv),
    }
}

/// The commands of typing a character: insert the cell at the old cursor
/// position, and redraw when a live filter ran.
pub open spec fn char_actions(e: Engine, mv: Seq<WidgetV>, c: char) -> Seq<UiActionV> {
    match char_edit(e, mv, c) {
        Some((i, nc)) => {
            let ins = UiActionV::InsertChar { row: e.cursor_y as int, col: e.cursor_x + 2, ch: c };
            if mv[i].filter() != Filter::Off {
                seq![ins] + draw_actions(
                    filtered(mv.update(i, mv[i].with_content(nc)), mv[i].filter(), nc),
                    e.scroll_offset as int,
                )
            } else {
                seq![ins]
            }
        },
        None => Seq::<UiActionV>::empty(),
    }
}

/// One step of the state machine: the new engine state, the new widget
/// list, and the reason to stop if the key ends the interaction.
pub open spec fn step_spec(e: Engine, mv: Seq<WidgetV>, key: Key) -> (
    Engine,
    Seq<WidgetV>,
    Option<(BreakCondition, int)>,
) {
    match key {
        Key::Escape => (e, mv, Some((BreakCondition::QUIT, 0int))),
        Key::Enter => {
            let (b, id) = enter_result(mv, e.cursor_y as int);
            (e, mv, Some((b, id)))
        },
        Key::Up => {
            let (e2, m2) = up_state(e, mv);
            (e2, m2, None)
        },
        Key::Down => {
            let (e2, m2) = down_state(e, mv);
            (e2, m2, None)
        },
        Key::Left => (Engine { cursor_x: left_x(e, mv) as usize, ..e }, mv, None),
        Key::Right => (Engine { cursor_x: right_x(e, mv) as usize, ..e }, mv, None),
        Key::Backspace => {
            let (e2, m2) = backspace_state(e, mv);
            (e2, m2, None)
        },
        Key::Char(c) => {
            let (e2, m2) = char_state(e, mv, c);
            (e2, m2, None)
        },
        Key::Other => (e, mv, None),
    }
}

/// Where the terminal cursor goes after a handled key: the cursor's row
/// and column past the left margin.
pub open spec fn move_to(e: Engine) -> UiActionV {
    UiActionV::MoveCursor { row: e.cursor_y as int, col: e.cursor_x + 2 }
}

/// The commands of one step: the key's own commands, then, unless the key
/// ends the interaction, the cursor move that precedes the refresh.
pub open spec fn step_actions(e: Engine, mv: Seq<WidgetV>, key: Key) -> Seq<UiActionV> {
    match key {
        Key::Escape => Seq::<UiActionV>::empty(),
        Key::Enter => Seq::<UiActionV>::empty(),
        Key::Up => up_actions(e, mv) + seq![move_to(step_spec(e, mv, key).0)],
        Key::Down => down_actions(e, mv) + seq![move_to(step_spec(e, mv, key).0)],
        Key::Left => seq![move_to(step_spec(e, mv, key).0)],
        Key::Right => seq![move_to(step_spec(e, mv, key).0)],
        Key::Backspace => backspace_actions(e, mv) + seq![move_to(step_spec(e, mv, key).0)],
        Key::Char(c) => char_actions(e, mv, c) + seq![move_to(step_spec(e, mv, key).0)],
        Key::Other => seq![move_to(e)],
    }
}

// ---------------------------------------------------------------------------
// The keystroke state machine, executable
// ---------------------------------------------------------------------------

/// Move the cursor one row up, scrolling first when hidden rows sit above
/// the screen.
fn handle_up(e: &mut Engine, model: &mut Vec<Widget>) -> (acts: Vec<UiAction>)
    requires
        engine_wf(*old(e), views_of(old(model)@)),
    ensures
        (*final(e), views_of(final(model)@)) == up_state(*old(e), views_of(old(model)@)),
        actions_of(acts@) == up_actions(*old(e), views_of(old(model)@)),
{
    let ghost mv = views_of(model@);
    let mut acts: Vec<UiAction> = Vec::new();
    if e.scroll_offset < 0 && e.cursor_y == 0 {
        e.scroll_offset = e.scroll_offset + 1;
        let mut dc = draw(model, e.scroll_offset);
        acts.append(&mut dc);
        e.cursor_y = 1;
        e.limit = e.limit + 1;
    }
    let ghost e1 = *e;
    let ghost m1 = views_of(model@);
    proof {
        assert((e1, m1) == up_phase1(*old(e), mv));
        assert(m1.len() == mv.len());
    }
    if e.cursor_y > 0 {
        acts.push(
            UiAction::Print { row: e.cursor_y as i32, col: 0, text: String::from_str(" ") },
        );
        e.cursor_y = e.cursor_y - 1;
        match find_index_by_y(model, e.cursor_y as i32) {
            Some(i) => {
                proof {
                    crate::helpers::lemma_find_y_bounds(m1, e.cursor_y as int);
                }
                let is_input: bool;
                let lc: usize;
                match &model[i] {
                    Widget::Input { label, content, .. } => {
                        proof {
                            lemma_drawn_fields(mv, old(e).scroll_offset + 1);
                            assert(m1[i as int].wf());
                            assert(model@[i as int]@ == m1[i as int]);
                        }
                        is_input = true;
                        lc = label.unicode_len() + content.unicode_len();
                    },
                    Widget::Text { .. } => {
                        is_input = false;
                        lc = 0;
                    },
                }
                if is_input {
                    acts.push(UiAction::SetCursorVisible { visible: true });
                    e.cursor_x = lc;
                } else {
                    acts.push(UiAction::SetCursorVisible { visible: false });
                    acts.push(
                        UiAction::Print {
                            row: e.cursor_y as i32,
                            col: 0,
                            text: String::from_str(">"),
                        },
                    );
                }
            },
            None => {
                acts.push(UiAction::SetCursorVisible { visible: false });
                acts.push(
                    UiAction::Print { row: e.cursor_y as i32, col: 0, text: String::from_str(">") },
                );
            },
        }
    }
    proof {
        assert(actions_of(acts@) =~= up_actions(*old(e), mv));
    }
    acts
}

/// Move the cursor one row down, scrolling when the move would leave the
/// screen.
fn handle_down(e: &mut Engine, model: &mut Vec<Widget>) -> (acts: Vec<UiAction>)
    requires
        engine_wf(*old(e), views_of(old(model)@)),
    ensures
        (*final(e), views_of(final(model)@)) == down_state(*old(e), views_of(old(model)@)),
        actions_of(acts@) == down_actions(*old(e), views_of(old(model)@)),
{
    let ghost mv = views_of(model@);
    let mut acts: Vec<UiAction> = Vec::new();
    if e.cursor_y < e.limit {
        acts.push(
            UiAction::Print { row: e.cursor_y as i32, col: 0, text: String::from_str(" ") },
        );
        if e.cursor_y + 1 > e.height - 1 {
            e.scroll_offset = e.scroll_offset - 1;
            let mut dc = draw(model, e.scroll_offset);
            acts.append(&mut dc);
            e.limit = e.limit - 1;
        } else {
            e.cursor_y = e.cursor_y + 1;
        }
        let ghost e1 = *e;
        let ghost m1 = views_of(model@);
        proof {
            assert((e1, m1) == down_phase1(*old(e), mv));
            assert(m1.len() == mv.len());
        }
        match find_index_by_y(model, e.cursor_y as i32) {
            Some(i) => {
                proof {
                    crate::helpers::lemma_find_y_bounds(m1, e.cursor_y as int);
                }
                let is_input: bool;
                let lc: usize;
                match &model[i] {
                    Widget::Input { label, content, .. } => {
                        proof {
                            lemma_drawn_fields(mv, old(e).scroll_offset - 1);
                            assert(m1[i as int].wf());
                            assert(model@[i as int]@ == m1[i as int]);
                        }
                        is_input = true;
                        lc = label.unicode_len() + content.unicode_len();
                    },
                    Widget::Text { .. } => {
                        is_input = false;
                        lc = 0;
                    },
                }
                if is_input {
                    acts.push(UiAction::SetCursorVisible { visible: true });
                    e.cursor_x = lc;
                } else {
                    acts.push(UiAction::SetCursorVisible { visible: false });
                    acts.push(
                        UiAction::Print {
                            row: e.cursor_y as i32,
                            col: 0,
                            text: String::from_str(">"),
                        },
                    );
                }
            },
            None => {
                acts.push(UiAction::SetCursorVisible { visible: false });
                acts.push(
                    UiAction::Print { row: e.cursor_y as i32, col: 0, text: String::from_str(">") },
                );
            },
        }
    }
    proof {
        assert(actions_of(acts@) =~= down_actions(*old(e), mv));
    }
    acts
}

/// Move the cursor one cell left within an input's content.
fn handle_left(e: &mut Engine, model: &Vec<Widget>)
    requires
        engine_wf(*old(e), views_of(model@)),
    ensures
        *final(e) == (Engine { cursor_x: left_x(*old(e), views_of(model@)) as usize, ..*old(e) }),
{
    match find_index_by_y(model, e.cursor_y as i32) {
        Some(i) => {
            proof {
                crate::helpers::lemma_find_y_bounds(views_of(model@), e.cursor_y as int);
                assert(model@[i as int]@ == views_of(model@)[i as int]);
            }
            match &model[i] {
                Widget::Input { label, .. } => {
                    let ll = label.unicode_len();
                    if e.cursor_x > ll {
                        e.cursor_x = e.cursor_x - 1;
                    }
                },
                Widget::Text { .. } => {},
            }
        },
        None => {},
    }
}

/// Move the cursor one cell right within an input's content.
fn handle_right(e: &mut Engine, model: &Vec<Widget>)
    requires
        engine_wf(*old(e), views_of(model@)),
    ensures
        *final(e) == (Engine { cursor_x: right_x(*old(e), views_of(model@)) as usize, ..*old(e) }),
{
    match find_index_by_y(model, e.cursor_y as i32) {
        Some(i) => {
            proof {
                crate::helpers::lemma_find_y_bounds(views_of(model@), e.cursor_y as int);
                assert(model@[i as int]@ == views_of(model@)[i as int]);
                assert(views_of(model@)[i as int].wf());
            }
            match &model[i] {
                Widget::Input { label, content, .. } => {
                    let ll = label.unicode_len();
                    let cl = content.unicode_len();
                    if e.cursor_x < ll + cl {
                        e.cursor_x = e.cursor_x + 1;
                    }
                },
                Widget::Text { .. } => {},
            }
        },
        None => {},
    }
}

/// Build the input widget at `idx` again with another content.
fn replace_content(model: &mut Vec<Widget>, idx: usize, new_content: String)
    requires
        idx < old(model)@.len(),
        old(model)@[idx as int]@.is_input(),
    ensures
        views_of(final(model)@) == views_of(old(model)@).update(
            idx as int,
            old(model)@[idx as int]@.with_content(new_content@),
        ),
{
    let ghost mv = views_of(model@);
    let w: Widget;
    match &model[idx] {
        Widget::Input { y, filter, label, selectable, hidden, id, content: _ } => {
            w = Widget::Input {
                y: *y,
                filter: *filter,
                label: label.clone(),
                content: new_content,
                selectable: *selectable,
                hidden: *hidden,
                id: *id,
            };
        },
        Widget::Text { .. } => {
            proof {
                assert(false);
            }
            w = Widget::Text {
                y: 0,
                content: new_content,
                selectable: true,
                show: true,
                id: 0,
            };
        },
    }
    model[idx] = w;
    proof {
        assert(views_of(model@) =~= mv.update(idx as int, mv[idx as int].with_content(w@.content())));
    }
}

/// Delete the character left of the cursor from the input under it, and
/// re-apply a live filter.
fn handle_backspace(e: &mut Engine, model: &mut Vec<Widget>) -> (acts: Vec<UiAction>)
    requires
        engine_wf(*old(e), views_of(old(model)@)),
    ensures
        (*final(e), views_of(final(model)@)) == backspace_state(*old(e), views_of(old(model)@)),
        actions_of(acts@) == backspace_actions(*old(e), views_of(old(model)@)),
{
    let ghost mv = views_of(model@);
    let mut acts: Vec<UiAction> = Vec::new();
    let idx: usize;
    match find_index_by_y(model, e.cursor_y as i32) {
        Some(i) => {
            idx = i;
        },
        None => {
            proof {
                assert(actions_of(acts@) =~= backspace_actions(*old(e), mv));
            }
            return acts;
        },
    }
    proof {
        crate::helpers::lemma_find_y_bounds(mv, e.cursor_y as int);
        assert(model@[idx as int]@ == mv[idx as int]);
        assert(mv[idx as int].wf());
    }
    let ll: usize;
    let cl: usize;
    let f: Filter;
    match &model[idx] {
        Widget::Input { label, content, filter, .. } => {
            ll = label.unicode_len();
            cl = content.unicode_len();
            f = *filter;
        },
        Widget::Text { .. } => {
            proof {
                assert(actions_of(acts@) =~= backspace_actions(*old(e), mv));
            }
            return acts;
        },
    }
    if e.cursor_x > ll && e.cursor_x <= ll + cl {
        e.cursor_x = e.cursor_x - 1;
        acts.push(UiAction::DeleteChar { row: e.cursor_y as i32, col: e.cursor_x + 2 });
        let pos = e.cursor_x - ll;
        let new_content: String;
        match &model[idx] {
            Widget::Input { content, .. } => {
                let mut t = String::from_str(content.as_str().substring_char(0, pos));
                t.append(content.as_str().substring_char(pos + 1, cl));
                new_content = t;
            },
            Widget::Text { .. } => {
                proof {
                    assert(false);
                }
                new_content = String::new();
            },
        }
        let query = new_content.clone();
        replace_content(model, idx, new_content);
        proof {
            assert(views_of(model@) == mv.update(
                idx as int,
                mv[idx as int].with_content(query@),
            ));
            assert(backspace_edit(*old(e), mv) == Some((idx as int, query@)));
        }
        if !matches!(f, Filter::Off) {
            filter_widgets(model, f, query.as_str());
            proof {
                assert(model@.len() == views_of(model@).len());
                assert(views_of(model@).len() == mv.len());
            }
            let mut dc = draw(model, e.scroll_offset);
            acts.append(&mut dc);
        }
    }
    proof {
        assert(actions_of(acts@) =~= backspace_actions(*old(e), mv));
    }
    acts
}

/// Insert a typed character into the input under the cursor, and re-apply
/// a live filter.
fn handle_char(e: &mut Engine, model: &mut Vec<Widget>, c: char) -> (acts: Vec<UiAction>)
    requires
        engine_wf(*old(e), views_of(old(model)@)),
    ensures
        (*final(e), views_of(final(model)@)) == char_state(*old(e), views_of(old(model)@), c),
        actions_of(acts@) == char_actions(*old(e), views_of(old(model)@), c),
{
    let ghost mv = views_of(model@);
    let mut acts: Vec<UiAction> = Vec::new();
    let idx: usize;
    match find_index_by_y(model, e.cursor_y as i32) {
        Some(i) => {
            idx = i;
        },
        None => {
            proof {
                assert(actions_of(acts@) =~= char_actions(*old(e), mv, c));
            }
            return acts;
        },
    }
    proof {
        crate::helpers::lemma_find_y_bounds(mv, e.cursor_y as int);
        assert(model@[idx as int]@ == mv[idx as int]);
        assert(mv[idx as int].wf());
    }
    let ll: usize;
    let cl: usize;
    let f: Filter;
    match &model[idx] {
        Widget::Input { label, content, filter, .. } => {
            ll = label.unicode_len();
            cl = content.unicode_len();
            f = *filter;
        },
        Widget::Text { .. } => {
            proof {
                assert(actions_of(acts@) =~= char_actions(*old(e), mv, c));
            }
            return acts;
        },
    }
    if e.cursor_x >= ll && e.cursor_x <= ll + cl && ll + cl < usize::MAX - 3 {
        acts.push(UiAction::InsertChar { row: e.cursor_y as i32, col: e.cursor_x + 2, ch: c });
        let pos = e.cursor_x - ll;
        e.cursor_x = e.cursor_x + 1;
        let new_content: String;
        match &model[idx] {
            Widget::Input { content, .. } => {
                let mut t = String::from_str(content.as_str().substring_char(0, pos));
                crate::strutil::push_char(&mut t, c);
                t.append(content.as_str().substring_char(pos, cl));
                new_content = t;
            },
            Widget::Text { .. } => {
                proof {
                    assert(false);
                }
                new_content = String::new();
            },
        }
        let query = new_content.clone();
        replace_content(model, idx, new_content);
        proof {
            assert(query@ =~= mv[idx as int].content().subrange(0, pos as int).push(c)
                + mv[idx as int].content().subrange(pos as int, cl as int));
            assert(char_edit(*old(e), mv, c) == Some((idx as int, query@)));
        }
        if !matches!(f, Filter::Off) {
            filter_widgets(model, f, query.as_str());
            proof {
                assert(model@.len() == views_of(model@).len());
                assert(views_of(model@).len() == mv.len());
            }
            let mut dc = draw(model, e.scroll_offset);
            acts.append(&mut dc);
        }
    }
    proof {
        assert(actions_of(acts@) =~= char_actions(*old(e), mv, c));
    }
    acts
}

// ---------------------------------------------------------------------------
// Starting and stepping the engine
// ---------------------------------------------------------------------------

/// A render pass changes rows alone: everything else a widget holds stays.
pub proof fn lemma_drawn_fields(mv: Seq<WidgetV>, scroll: int)
    ensures
        drawn(mv, scroll).len() == mv.len(),
        forall|i: int|
            0 <= i < mv.len() ==> (#[trigger] drawn(mv, scroll)[i]).label() == mv[i].label()
                && drawn(mv, scroll)[i].content() == mv[i].content() && drawn(mv, scroll)[i].is_input()
                == mv[i].is_input() && drawn(mv, scroll)[i].shown() == mv[i].shown() && drawn(
                mv,
                scroll,
            )[i].id() == mv[i].id() && drawn(mv, scroll)[i].filter() == mv[i].filter() && drawn(
                mv,
                scroll,
            )[i].wf() == mv[i].wf(),
{
}

/// A filter pass changes `show` flags alone: everything else stays.
pub proof fn lemma_filtered_fields(mv: Seq<WidgetV>, mode: Filter, query: Seq<char>)
    ensures
        filtered(mv, mode, query).len() == mv.len(),
        forall|i: int|
            0 <= i < mv.len() ==> (#[trigger] filtered(mv, mode, query)[i]).label()
                == mv[i].label() && filtered(mv, mode, query)[i].content() == mv[i].content()
                && filtered(mv, mode, query)[i].is_input() == mv[i].is_input() && filtered(
                mv,
                mode,
                query,
            )[i].y() == mv[i].y() && filtered(mv, mode, query)[i].id() == mv[i].id() && filtered(
                mv,
                mode,
                query,
            )[i].filter() == mv[i].filter() && filtered(mv, mode, query)[i].wf() == mv[i].wf(),
{
}

/// Start one interaction: reset the scroll, put the cursor on the top
/// row (at the end of an input's text when one sits there), and draw.
pub fn engine_init(model: &mut Vec<Widget>, height: usize) -> (r: (Engine, Vec<UiAction>))
    requires
        1 <= old(model)@.len() <= 0x4000_0000,
        height >= 1,
        forall|i: int|
            0 <= i < old(model)@.len() ==> (#[trigger] views_of(old(model)@)[i]).wf(),
    ensures
        engine_wf(r.0, views_of(final(model)@)),
        r.0 == init_engine(views_of(old(model)@), height),
        views_of(final(model)@) == drawn(views_of(old(model)@), 0),
        actions_of(r.1@) == init_actions(views_of(old(model)@)),
{
    let ghost mv = views_of(model@);
    let mut acts: Vec<UiAction> = Vec::new();
    let mut cursor_x: usize = 0;
    match find_index_by_y(model, 0) {
        Some(i) => {
            proof {
                crate::helpers::lemma_find_y_bounds(mv, 0);
                assert(model@[i as int]@ == mv[i as int]);
                assert(mv[i as int].wf());
            }
            match &model[i] {
                Widget::Input { label, content, .. } => {
                    cursor_x = label.unicode_len() + content.unicode_len();
                },
                Widget::Text { .. } => {
                    acts.push(UiAction::SetCursorVisible { visible: false });
                },
            }
        },
        None => {
            acts.push(UiAction::SetCursorVisible { visible: false });
        },
    }
    acts.push(UiAction::MoveCursor { row: 0, col: cursor_x });
    let mut dc = draw(model, 0);
    acts.append(&mut dc);
    proof {
        assert(views_of(model@).len() == model@.len());
        assert(views_of(model@).len() == mv.len());
    }
    let e = Engine {
        cursor_x,
        cursor_y: 0,
        scroll_offset: 0,
        limit: model.len() - 1,
        height,
    };
    proof {
        lemma_drawn_fields(mv, 0);
        assert(actions_of(acts@) =~= init_actions(mv));
    }
    (e, acts)
}


/// One up-arrow step: the handler's work and the closing cursor move.
#[verifier::rlimit(60)]
fn step_up(e: &mut Engine, model: &mut Vec<Widget>) -> (acts: Vec<UiAction>)
    requires
        engine_wf(*old(e), views_of(old(model)@)),
    ensures
        engine_wf(*final(e), views_of(final(model)@)),
        (*final(e), views_of(final(model)@)) == up_state(*old(e), views_of(old(model)@)),
        actions_of(acts@) == up_actions(*old(e), views_of(old(model)@)) + seq![
            move_to(up_state(*old(e), views_of(old(model)@)).0),
        ],
{
    let ghost mv = views_of(model@);
    let mut a = handle_up(e, model);
    proof {
        let m2 = up_state(*old(e), mv).1;
        assert(views_of(model@) == m2);
        lemma_drawn_fields(mv, old(e).scroll_offset + 1);
        assert forall|i: int| 0 <= i < m2.len() implies (#[trigger] m2[i]).wf() by {
            if up_scrolls(*old(e)) {
                assert(m2[i] == drawn(mv, old(e).scroll_offset + 1)[i]);
            } else {
                assert(m2[i] == mv[i]);
            }
        }
        let e1 = up_phase1(*old(e), mv).0;
        if e1.cursor_y > 0 {
            crate::helpers::lemma_find_y_bounds(m2, e1.cursor_y - 1);
        }
        assert(engine_wf(*e, views_of(model@)));
    }
    a.push(UiAction::MoveCursor { row: e.cursor_y as i32, col: e.cursor_x + 2 });
    proof {
        assert(actions_of(a@) =~= up_actions(*old(e), mv) + seq![move_to(up_state(*old(e), mv).0)]);
    }
    a
}

/// One down-arrow step: the handler's work and the closing cursor move.
#[verifier::rlimit(60)]
fn step_down(e: &mut Engine, model: &mut Vec<Widget>) -> (acts: Vec<UiAction>)
    requires
        engine_wf(*old(e), views_of(old(model)@)),
    ensures
        engine_wf(*final(e), views_of(final(model)@)),
        (*final(e), views_of(final(model)@)) == down_state(*old(e), views_of(old(model)@)),
        actions_of(acts@) == down_actions(*old(e), views_of(old(model)@)) + seq![
            move_to(down_state(*old(e), views_of(old(model)@)).0),
        ],
{
    let ghost mv = views_of(model@);
    let mut a = handle_down(e, model);
    proof {
        let m2 = down_state(*old(e), mv).1;
        assert(views_of(model@) == m2);
        lemma_drawn_fields(mv, old(e).scroll_offset - 1);
        assert forall|i: int| 0 <= i < m2.len() implies (#[trigger] m2[i]).wf() by {
            if down_scrolls(*old(e)) {
                assert(m2[i] == drawn(mv, old(e).scroll_offset - 1)[i]);
            } else {
                assert(m2[i] == mv[i]);
            }
        }
        if down_moves(*old(e)) {
            let e1 = down_phase1(*old(e), mv).0;
            crate::helpers::lemma_find_y_bounds(m2, e1.cursor_y as int);
        }
        assert(engine_wf(*e, views_of(model@)));
    }
    a.push(UiAction::MoveCursor { row: e.cursor_y as i32, col: e.cursor_x + 2 });
    proof {
        assert(actions_of(a@) =~= down_actions(*old(e), mv) + seq![
            move_to(down_state(*old(e), mv).0),
        ]);
    }
    a
}

/// One backspace step: the handler's work and the closing cursor move.
#[verifier::rlimit(60)]
fn step_backspace(e: &mut Engine, model: &mut Vec<Widget>) -> (acts: Vec<UiAction>)
    requires
        engine_wf(*old(e), views_of(old(model)@)),
    ensures
        engine_wf(*final(e), views_of(final(model)@)),
        (*final(e), views_of(final(model)@)) == backspace_state(*old(e), views_of(old(model)@)),
        actions_of(acts@) == backspace_actions(*old(e), views_of(old(model)@)) + seq![
            move_to(backspace_state(*old(e), views_of(old(model)@)).0),
        ],
{
    let ghost mv = views_of(model@);
    proof {
        crate::helpers::lemma_find_y_bounds(mv, old(e).cursor_y as int);
    }
    let mut a = handle_backspace(e, model);
    proof {
        let mfin = backspace_state(*old(e), mv).1;
        assert(views_of(model@) == mfin);
        if let Some((i, nc)) = backspace_edit(*old(e), mv) {
            let m2 = mv.update(i, mv[i].with_content(nc));
            assert(forall|k: int| 0 <= k < m2.len() ==> (#[trigger] m2[k]).wf());
            lemma_filtered_fields(m2, mv[i].filter(), nc);
            lemma_drawn_fields(filtered(m2, mv[i].filter(), nc), old(e).scroll_offset as int);
            assert forall|k: int| 0 <= k < mfin.len() implies (#[trigger] mfin[k]).wf() by {
                if mv[i].filter() != Filter::Off {
                    assert(mfin[k] == drawn(
                        filtered(m2, mv[i].filter(), nc),
                        old(e).scroll_offset as int,
                    )[k]);
                } else {
                    assert(mfin[k] == m2[k]);
                }
            }
        }
        assert(engine_wf(*e, views_of(model@)));
    }
    a.push(UiAction::MoveCursor { row: e.cursor_y as i32, col: e.cursor_x + 2 });
    proof {
        assert(actions_of(a@) =~= backspace_actions(*old(e), mv) + seq![
            move_to(backspace_state(*old(e), mv).0),
        ]);
    }
    a
}

/// One typed-character step: the handler's work and the closing cursor
/// move.
#[verifier::rlimit(60)]
fn step_char(e: &mut Engine, model: &mut Vec<Widget>, c: char) -> (acts: Vec<UiAction>)
    requires
        engine_wf(*old(e), views_of(old(model)@)),
    ensures
        engine_wf(*final(e), views_of(final(model)@)),
        (*final(e), views_of(final(model)@)) == char_state(*old(e), views_of(old(model)@), c),
        actions_of(acts@) == char_actions(*old(e), views_of(old(model)@), c) + seq![
            move_to(char_state(*old(e), views_of(old(model)@), c).0),
        ],
{
    let ghost mv = views_of(model@);
    proof {
        crate::helpers::lemma_find_y_bounds(mv, old(e).cursor_y as int);
    }
    let mut a = handle_char(e, model, c);
    proof {
        let mfin = char_state(*old(e), mv, c).1;
        assert(views_of(model@) == mfin);
        if let Some((i, nc)) = char_edit(*old(e), mv, c) {
            let m2 = mv.update(i, mv[i].with_content(nc));
            assert(forall|k: int| 0 <= k < m2.len() ==> (#[trigger] m2[k]).wf());
            lemma_filtered_fields(m2, mv[i].filter(), nc);
            lemma_drawn_fields(filtered(m2, mv[i].filter(), nc), old(e).scroll_offset as int);
            assert forall|k: int| 0 <= k < mfin.len() implies (#[trigger] mfin[k]).wf() by {
                if mv[i].filter() != Filter::Off {
                    assert(mfin[k] == drawn(
                        filtered(m2, mv[i].filter(), nc),
                        old(e).scroll_offset as int,
                    )[k]);
                } else {
                    assert(mfin[k] == m2[k]);
                }
            }
        }
        assert(engine_wf(*e, views_of(model@)));
    }
    a.push(UiAction::MoveCursor { row: e.cursor_y as i32, col: e.cursor_x + 2 });
    proof {
        assert(actions_of(a@) =~= char_actions(*old(e), mv, c) + seq![
            move_to(char_state(*old(e), mv, c).0),
        ]);
    }
    a
}

/// Drive the engine by one keystroke: the state and the widgets move as
/// `step_spec` says, the returned commands are those of `step_actions`,
/// and the second component names the reason to stop, if this key ends
/// the interaction.
pub fn engine_step(e: &mut Engine, model: &mut Vec<Widget>, key: Key) -> (r: (
    Vec<UiAction>,
    Option<(BreakCondition, usize)>,
))
    requires
        engine_wf(*old(e), views_of(old(model)@)),
    ensures
        engine_wf(*final(e), views_of(final(model)@)),
        ({
            let (e2, m2, out) = step_spec(*old(e), views_of(old(model)@), key);
            &&& *final(e) == e2
            &&& views_of(final(model)@) == m2
            &&& (match (r.1, out) {
                (Some((b, i)), Some((b2, i2))) => b == b2 && i == i2,
                (None, None) => true,
                _ => false,
            })
        }),
        actions_of(r.0@) == step_actions(*old(e), views_of(old(model)@), key),
{
    let ghost mv = views_of(model@);
    match key {
        Key::Escape => (Vec::new(), Some((BreakCondition::QUIT, 0))),
        Key::Enter => {
            let b: BreakCondition;
            let id: usize;
            match find_index_by_y(model, e.cursor_y as i32) {
                Some(i) => {
                    proof {
                        crate::helpers::lemma_find_y_bounds(mv, e.cursor_y as int);
                        assert(model@[i as int]@ == mv[i as int]);
                    }
                    match &model[i] {
                        Widget::Input { id: wid, .. } => {
                            b = BreakCondition::INPUT;
                            id = *wid;
                        },
                        Widget::Text { id: wid, .. } => {
                            b = BreakCondition::SELECTION;
                            id = *wid;
                        },
                    }
                },
                None => {
                    b = BreakCondition::QUIT;
                    id = 0;
                },
            }
            (Vec::new(), Some((b, id)))
        },
        Key::Up => (step_up(e, model), None),
        Key::Down => (step_down(e, model), None),
        Key::Left => {
            handle_left(e, model);
            let mut a: Vec<UiAction> = Vec::new();
            a.push(UiAction::MoveCursor { row: e.cursor_y as i32, col: e.cursor_x + 2 });
            proof {
                assert(actions_of(a@) =~= step_actions(*old(e), mv, key));
            }
            (a, None)
        },
        Key::Right => {
            proof {
                crate::helpers::lemma_find_y_bounds(mv, old(e).cursor_y as int);
            }
            handle_right(e, model);
            let mut a: Vec<UiAction> = Vec::new();
            a.push(UiAction::MoveCursor { row: e.cursor_y as i32, col: e.cursor_x + 2 });
            proof {
                assert(actions_of(a@) =~= step_actions(*old(e), mv, key));
            }
            (a, None)
        },
        Key::Backspace => (step_backspace(e, model), None),
        Key::Char(c) => (step_char(e, model, c), None),
        Key::Other => {
            let mut a: Vec<UiAction> = Vec::new();
            a.push(UiAction::MoveCursor { row: e.cursor_y as i32, col: e.cursor_x + 2 });
            proof {
                assert(actions_of(a@) =~= step_actions(*old(e), mv, key));
            }
            (a, None)
        },
    }
}

// ---------------------------------------------------------------------------
// Laws of the state machine
// ---------------------------------------------------------------------------

/// Backspace with the cursor at the label's end changes nothing: there is
/// no content character left of the cursor to delete.
pub proof fn lemma_backspace_at_label_noop(e: Engine, mv: Seq<WidgetV>)
    requires
        match spec_find_y(mv, e.cursor_y as int) {
            Some(i) => mv[i].is_input() && e.cursor_x == mv[i].label().len(),
            None => false,
        },
    ensures
        step_spec(e, mv, Key::Backspace) == (e, mv, None::<(BreakCondition, int)>),
{
}

/// A right arrow with the cursor at the end of the content changes
/// nothing: the cursor cannot leave the text.
pub proof fn lemma_right_at_end_noop(e: Engine, mv: Seq<WidgetV>)
    requires
        match spec_find_y(mv, e.cursor_y as int) {
            Some(i) => mv[i].is_input() && e.cursor_x == end_of_input_x(mv[i]),
            None => false,
        },
    ensures
        step_spec(e, mv, Key::Right) == (e, mv, None::<(BreakCondition, int)>),
{
}

/// A keystroke never touches a widget's stable index: the list after any
/// step holds the same widgets in the same order, by index.
pub proof fn lemma_step_keeps_ids(e: Engine, mv: Seq<WidgetV>, key: Key)
    ensures
        ({
            let (_, m2, _) = step_spec(e, mv, key);
            m2.len() == mv.len() && forall|i: int|
                0 <= i < mv.len() ==> (#[trigger] m2[i]).id() == mv[i].id()
        }),
{
    let (_, m2, _) = step_spec(e, mv, key);
    match key {
        Key::Up => {
            lemma_drawn_fields(mv, e.scroll_offset + 1);
        },
        Key::Down => {
            lemma_drawn_fields(mv, e.scroll_offset - 1);
        },
        Key::Backspace => {
            crate::helpers::lemma_find_y_bounds(mv, e.cursor_y as int);
            if let Some((i, nc)) = backspace_edit(e, mv) {
                let mu = mv.update(i, mv[i].with_content(nc));
                lemma_filtered_fields(mu, mv[i].filter(), nc);
                lemma_drawn_fields(filtered(mu, mv[i].filter(), nc), e.scroll_offset as int);
            }
        },
        Key::Char(c) => {
            crate::helpers::lemma_find_y_bounds(mv, e.cursor_y as int);
            if let Some((i, nc)) = char_edit(e, mv, c) {
                let mu = mv.update(i, mv[i].with_content(nc));
                lemma_filtered_fields(mu, mv[i].filter(), nc);
                lemma_drawn_fields(filtered(mu, mv[i].filter(), nc), e.scroll_offset as int);
            }
        },
        _ => {},
    }
}

} // verus!
