use crate::engine::BreakCondition;
use crate::widget::Widget;
use crate::widget::WidgetV;
use crate::widget::views_of;
use vstd::prelude::*;

verus! {

/// The four strings the driver loop threads through successive
/// invocations of the child: the last edited input content, the joined
/// contents of all inputs, the last selected text, and the data channel.
#[derive(Debug)]
pub struct LoopState {
    pub input: String,
    pub input_content: String,
    pub selection: String,
    pub data: String,
}

/// Mathematical model of the loop state.
pub ghost struct LoopStateV {
    pub input: Seq<char>,
    pub input_content: Seq<char>,
    pub selection: Seq<char>,
    pub data: Seq<char>,
}

impl View for LoopState {
    type V = LoopStateV;

    open spec fn view(&self) -> LoopStateV {
        LoopStateV {
            input: self.input@,
            input_content: self.input_content@,
            selection: self.selection@,
            data: self.data@,
        }
    }
}

impl LoopState {
    /// The loop state at program start: four empty strings.
    pub fn new() -> (s: LoopState)
        ensures
            s@.input.len() == 0,
            s@.input_content.len() == 0,
            s@.selection.len() == 0,
            s@.data.len() == 0,
    {
        LoopState {
            input: String::new(),
            input_content: String::new(),
            selection: String::new(),
            data: String::new(),
        }
    }
}

/// Keep the previous data value unless the child spoke on the data
/// channel: a non-empty parsed value replaces it.
pub fn update_data(state: &mut LoopState, new_data: String)
    ensures
        final(state)@.data == if new_data@.len() > 0 {
            new_data@
        } else {
            old(state)@.data
        },
        final(state)@.input == old(state)@.input,
        final(state)@.input_content == old(state)@.input_content,
        final(state)@.selection == old(state)@.selection,
{
    if !new_data.as_str().is_empty() {
        state.data = new_data;
    }
}

/// What the loop state becomes when the engine returns: a selected text
/// sets the selection and clears the input, a committed input sets the
/// input and clears the selection, a quit changes nothing. A stable index
/// that names no widget of the fitting kind changes nothing either.
pub open spec fn applied_break(
    sv: LoopStateV,
    mv: Seq<WidgetV>,
    bc: BreakCondition,
    id: int,
) -> LoopStateV {
    match bc {
        BreakCondition::SELECTION => if 0 <= id < mv.len() && !mv[id].is_input() {
            LoopStateV { selection: mv[id].content(), input: Seq::empty(), ..sv }
        } else {
            sv
        },
        BreakCondition::INPUT => if 0 <= id < mv.len() && mv[id].is_input() {
            LoopStateV { input: mv[id].content(), selection: Seq::empty(), ..sv }
        } else {
            sv
        },
        BreakCondition::QUIT => sv,
    }
}

/// Carry the engine's outcome into the loop state.
pub fn apply_break(state: &mut LoopState, model: &Vec<Widget>, bc: BreakCondition, id: usize)
    ensures
        final(state)@ == applied_break(old(state)@, views_of(model@), bc, id as int),
{
    proof {
        if (id as int) < model@.len() {
            assert(views_of(model@)[id as int] == model@[id as int]@);
        }
    }
    match bc {
        BreakCondition::SELECTION => {
            if id < model.len() {
                match &model[id] {
                    Widget::Text { content, .. } => {
                        state.selection = content.clone();
                        state.input = String::new();
                    },
                    Widget::Input { .. } => {},
                }
            }
        },
        BreakCondition::INPUT => {
            if id < model.len() {
                match &model[id] {
                    Widget::Input { content, .. } => {
                        state.input = content.clone();
                        state.selection = String::new();
                    },
                    Widget::Text { .. } => {},
                }
            }
        },
        BreakCondition::QUIT => {},
    }
}

/// Whether any of the widgets is an input.
pub open spec fn has_input(mv: Seq<WidgetV>) -> bool
    decreases mv.len(),
{
    if mv.len() == 0 {
        false
    } else {
        has_input(mv.drop_last()) || mv.last().is_input()
    }
}

/// The contents of all input widgets in order, joined with one colon
/// between neighbours.
pub open spec fn joined_inputs(mv: Seq<WidgetV>) -> Seq<char>
    decreases mv.len(),
{
    if mv.len() == 0 {
        Seq::empty()
    } else {
        let rest = joined_inputs(mv.drop_last());
        if mv.last().is_input() {
            if has_input(mv.drop_last()) {
                rest + ":"@ + mv.last().content()
            } else {
                mv.last().content()
            }
        } else {
            rest
        }
    }
}

/// Without any input widget the join is empty.
proof fn lemma_joined_empty(mv: Seq<WidgetV>)
    requires
        !has_input(mv),
    ensures
        joined_inputs(mv) == Seq::<char>::empty(),
    decreases mv.len(),
{
    if mv.len() == 0 {
        assert(joined_inputs(mv) =~= Seq::<char>::empty());
    } else {
        lemma_joined_empty(mv.drop_last());
    }
}

/// Join the contents of every input widget, in declaration order, with a
/// colon between neighbours: what the next child invocation reads from
/// its joined-contents variable.
pub fn join_input_contents(model: &Vec<Widget>) -> (r: String)
    ensures
        r@ == joined_inputs(views_of(model@)),
{
    let ghost mv = views_of(model@);
    let n = model.len();
    let mut acc = String::new();
    let mut started = false;
    let mut i: usize = 0;
    proof {
        assert(mv.take(0) =~= Seq::<WidgetV>::empty());
    }
    while i < n
        invariant
            n == model@.len(),
            mv.len() == n,
            mv == views_of(model@),
            i <= n,
            started == has_input(mv.take(i as int)),
            acc@ == joined_inputs(mv.take(i as int)),
        decreases n - i,
    {
        proof {
            assert(model@[i as int]@ == mv[i as int]);
            assert(mv.take(i + 1).drop_last() =~= mv.take(i as int));
            assert(mv.take(i + 1).last() == mv[i as int]);
        }
        match &model[i] {
            Widget::Input { content, .. } => {
                if started {
                    acc.append(":");
                } else {
                    proof {
                        lemma_joined_empty(mv.take(i as int));
                    }
                }
                acc.append(content.as_str());
                started = true;
            },
            Widget::Text { .. } => {},
        }
        proof {
            assert(acc@ =~= joined_inputs(mv.take(i + 1)));
        }
        i += 1;
    }
    proof {
        assert(mv.take(n as int) =~= mv);
    }
    acc
}

} // verus!
