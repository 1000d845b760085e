use crate::widget::Widget;
use crate::widget::WidgetV;
use crate::widget::views_of;
use vstd::prelude::*;

verus! {

/// The position of the first widget rendered at row `y`, if any.
pub open spec fn spec_find_y(model: Seq<WidgetV>, y: int) -> Option<int>
    decreases model.len(),
{
    if model.len() == 0 {
        None
    } else if model[0].y() == y {
        Some(0)
    } else {
        match spec_find_y(model.drop_first(), y) {
            Some(i) => Some(i + 1),
            None => None,
        }
    }
}

/// What the position found by `spec_find_y` is: a hit at `y` with no
/// earlier hit, and a miss only when no widget sits at `y`.
pub proof fn lemma_find_y_bounds(model: Seq<WidgetV>, y: int)
    ensures
        spec_find_y(model, y) matches Some(i) ==> 0 <= i < model.len() && model[i].y() == y
            && forall|k: int| 0 <= k < i ==> model[k].y() != y,
        spec_find_y(model, y) is None ==> forall|k: int|
            0 <= k < model.len() ==> model[k].y() != y,
    decreases model.len(),
{
    if model.len() == 0 {
    } else if model[0].y() == y {
    } else {
        let rest = model.drop_first();
        lemma_find_y_bounds(rest, y);
        assert(forall|k: int| 0 <= k < rest.len() ==> rest[k] == model[k + 1]);
        match spec_find_y(rest, y) {
            Some(j) => {
                assert(model[j + 1].y() == y);
                assert forall|k: int| 0 <= k < j + 1 implies model[k].y() != y by {
                    if k > 0 {
                        assert(rest[k - 1].y() != y);
                    }
                }
            },
            None => {
                assert forall|k: int| 0 <= k < model.len() implies model[k].y() != y by {
                    if k > 0 {
                        assert(rest[k - 1].y() != y);
                    }
                }
            },
        }
    }
}

/// The first hit determines the position `spec_find_y` returns.
pub proof fn lemma_find_y_first(model: Seq<WidgetV>, y: int, i: int)
    requires
        0 <= i < model.len(),
        model[i].y() == y,
        forall|k: int| 0 <= k < i ==> model[k].y() != y,
    ensures
        spec_find_y(model, y) == Some(i),
    decreases model.len(),
{
    if i == 0 {
    } else {
        assert(forall|k: int| 0 <= k < model.len() - 1 ==> model.drop_first()[k] == model[k + 1]);
        lemma_find_y_first(model.drop_first(), y, i - 1);
    }
}

/// No hit anywhere means `spec_find_y` misses.
pub proof fn lemma_find_y_none(model: Seq<WidgetV>, y: int)
    requires
        forall|k: int| 0 <= k < model.len() ==> model[k].y() != y,
    ensures
        spec_find_y(model, y) is None,
    decreases model.len(),
{
    if model.len() == 0 {
    } else {
        assert(forall|k: int| 0 <= k < model.len() - 1 ==> model.drop_first()[k] == model[k + 1]);
        lemma_find_y_none(model.drop_first(), y);
    }
}

/// The position of the first widget in `model` whose `y` equals the given
/// row, or `None` when no widget is rendered there.
pub fn find_index_by_y(model: &Vec<Widget>, y: i32) -> (r: Option<usize>)
    ensures
        r matches Some(i) ==> spec_find_y(views_of(model@), y as int) == Some(i as int),
        r is None ==> spec_find_y(views_of(model@), y as int) is None,
{
    let n = model.len();
    let mut i: usize = 0;
    while i < n
        invariant
            n == model@.len(),
            i <= n,
            forall|k: int| 0 <= k < i ==> #[trigger] views_of(model@)[k].y() != y as int,
        decreases n - i,
    {
        let hit = match &model[i] {
            Widget::Input { y: wy, .. } => *wy == y,
            Widget::Text { y: wy, .. } => *wy == y,
        };
        if hit {
            proof {
                lemma_find_y_first(views_of(model@), y as int, i as int);
            }
            return Some(i);
        }
        i += 1;
    }
    proof {
        lemma_find_y_none(views_of(model@), y as int);
    }
    None
}

/// Return the first widget from `model` that is rendered at row `y`.
pub fn find_widget_by_y<'a>(model: &'a Vec<Widget>, y: i32) -> (r: Option<&'a Widget>)
    ensures
        r matches Some(w) ==> spec_find_y(views_of(model@), y as int) matches Some(i) && *w
            == model@[i],
        r is None ==> spec_find_y(views_of(model@), y as int) is None,
{
    match find_index_by_y(model, y) {
        Some(i) => {
            proof {
                lemma_find_y_bounds(views_of(model@), y as int);
            }
            Some(&model[i])
        },
        None => None,
    }
}

/// Return the position of the first widget rendered at row `y` in a
/// mutable list, so that the caller can edit the widget in place.
pub fn find_widget_by_y_mut(model: &mut Vec<Widget>, y: i32) -> (r: Option<usize>)
    ensures
        final(model)@ == old(model)@,
        r matches Some(i) ==> spec_find_y(views_of(old(model)@), y as int) == Some(i as int),
        r is None ==> spec_find_y(views_of(old(model)@), y as int) is None,
{
    find_index_by_y(model, y)
}

} // verus!
