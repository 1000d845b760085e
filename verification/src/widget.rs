use vstd::prelude::*;

verus! {

/// Filter mode attached to an `Input` widget; it governs how sibling
/// `Text` widgets are shown or hidden while the user types.
#[derive(Debug, Clone, Copy, PartialEq, Eq, Structural)]
pub enum Filter {
    Off,
    Exact,
    Fuzzy,
}

/// One element of the user interface: an editable single-line `Input`
/// or a display-only `Text`.
///
/// `y` is the rendered row (`-1` means not rendered), `id` the stable
/// zero-based position the widget received when the list was parsed.
#[derive(Debug, Clone)]
pub enum Widget {
    Input {
        y: i32,
        filter: Filter,
        label: String,
        content: String,
        selectable: bool,
        hidden: bool,
        id: usize,
    },
    Text {
        y: i32,
        content: String,
        selectable: bool,
        show: bool,
        id: usize,
    },
}

/// Mathematical model of a widget: the same fields as plain values.
pub ghost enum WidgetV {
    Input {
        y: int,
        filter: Filter,
        label: Seq<char>,
        content: Seq<char>,
        selectable: bool,
        hidden: bool,
        id: int,
    },
    Text {
        y: int,
        content: Seq<char>,
        selectable: bool,
        show: bool,
        id: int,
    },
}

impl View for Widget {
    type V = WidgetV;

    open spec fn view(&self) -> WidgetV {
        match self {
            Widget::Input { y, filter, label, content, selectable, hidden, id } => WidgetV::Input {
                y: *y as int,
                filter: *filter,
                label: label@,
                content: content@,
                selectable: *selectable,
                hidden: *hidden,
                id: *id as int,
            },
            Widget::Text { y, content, selectable, show, id } => WidgetV::Text {
                y: *y as int,
                content: content@,
                selectable: *selectable,
                show: *show,
                id: *id as int,
            },
        }
    }
}

impl WidgetV {
    pub open spec fn is_input(self) -> bool {
        self matches WidgetV::Input { .. }
    }

    pub open spec fn y(self) -> int {
        match self {
            WidgetV::Input { y, .. } => y,
            WidgetV::Text { y, .. } => y,
        }
    }

    pub open spec fn id(self) -> int {
        match self {
            WidgetV::Input { id, .. } => id,
            WidgetV::Text { id, .. } => id,
        }
    }

    pub open spec fn content(self) -> Seq<char> {
        match self {
            WidgetV::Input { content, .. } => content,
            WidgetV::Text { content, .. } => content,
        }
    }

    /// The label printed left of an input's content; empty for a text widget.
    pub open spec fn label(self) -> Seq<char> {
        match self {
            WidgetV::Input { label, .. } => label,
            WidgetV::Text { .. } => Seq::empty(),
        }
    }

    /// A text widget is shown when its `show` flag is set; inputs are always shown.
    pub open spec fn shown(self) -> bool {
        match self {
            WidgetV::Input { .. } => true,
            WidgetV::Text { show, .. } => show,
        }
    }

    pub open spec fn selectable(self) -> bool {
        match self {
            WidgetV::Input { selectable, .. } => selectable,
            WidgetV::Text { selectable, .. } => selectable,
        }
    }

    pub open spec fn filter(self) -> Filter {
        match self {
            WidgetV::Input { filter, .. } => filter,
            WidgetV::Text { .. } => Filter::Off,
        }
    }

    /// The same widget with another rendered row.
    pub open spec fn with_y(self, new_y: int) -> WidgetV {
        match self {
            WidgetV::Input { y, filter, label, content, selectable, hidden, id } => WidgetV::Input {
                y: new_y,
                filter,
                label,
                content,
                selectable,
                hidden,
                id,
            },
            WidgetV::Text { y, content, selectable, show, id } => WidgetV::Text {
                y: new_y,
                content,
                selectable,
                show,
                id,
            },
        }
    }

    /// The same widget with another `show` flag (identity for inputs).
    pub open spec fn with_show(self, new_show: bool) -> WidgetV {
        match self {
            WidgetV::Input { .. } => self,
            WidgetV::Text { y, content, selectable, show, id } => WidgetV::Text {
                y,
                content,
                selectable,
                show: new_show,
                id,
            },
        }
    }

    /// The same input widget with another content (identity for texts).
    pub open spec fn with_content(self, new_content: Seq<char>) -> WidgetV {
        match self {
            WidgetV::Input { y, filter, label, content, selectable, hidden, id } => WidgetV::Input {
                y,
                filter,
                label,
                content: new_content,
                selectable,
                hidden,
                id,
            },
            WidgetV::Text { .. } => self,
        }
    }

    /// Room for the left margin and one more typed character: every widget
    /// that fits in memory satisfies this.
    pub open spec fn wf(self) -> bool {
        self.label().len() + self.content().len() + 2 < usize::MAX
    }
}

/// The models of all widgets in a list, in order.
pub open spec fn views_of(model: Seq<Widget>) -> Seq<WidgetV> {
    model.map_values(|w: Widget| w@)
}

/// Case-insensitive match against the word `off`.
pub open spec fn spec_word_off(s: Seq<char>) -> bool {
    &&& s.len() == 3
    &&& (s[0] == 'o' || s[0] == 'O')
    &&& (s[1] == 'f' || s[1] == 'F')
    &&& (s[2] == 'f' || s[2] == 'F')
}

/// Case-insensitive match against the word `exact`.
pub open spec fn spec_word_exact(s: Seq<char>) -> bool {
    &&& s.len() == 5
    &&& (s[0] == 'e' || s[0] == 'E')
    &&& (s[1] == 'x' || s[1] == 'X')
    &&& (s[2] == 'a' || s[2] == 'A')
    &&& (s[3] == 'c' || s[3] == 'C')
    &&& (s[4] == 't' || s[4] == 'T')
}

/// Case-insensitive match against the word `fuzzy`.
pub open spec fn spec_word_fuzzy(s: Seq<char>) -> bool {
    &&& s.len() == 5
    &&& (s[0] == 'f' || s[0] == 'F')
    &&& (s[1] == 'u' || s[1] == 'U')
    &&& (s[2] == 'z' || s[2] == 'Z')
    &&& (s[3] == 'z' || s[3] == 'Z')
    &&& (s[4] == 'y' || s[4] == 'Y')
}

/// The filter mode a parameter value denotes, or `None` for any other value.
pub open spec fn spec_filter_from(s: Seq<char>) -> Option<Filter> {
    if spec_word_off(s) {
        Some(Filter::Off)
    } else if spec_word_exact(s) {
        Some(Filter::Exact)
    } else if spec_word_fuzzy(s) {
        Some(Filter::Fuzzy)
    } else {
        None
    }
}

impl Filter {
    /// Read a filter mode from the case-insensitive words `off`, `exact`
    /// and `fuzzy`; every other value is refused.
    pub fn from_str(s: &str) -> (r: Result<Filter, ()>)
        ensures
            r matches Ok(f) ==> spec_filter_from(s@) == Some(f),
            r is Err <==> spec_filter_from(s@) is None,
    {
        let n = s.unicode_len();
        if n == 3 {
            let c0 = s.get_char(0);
            let c1 = s.get_char(1);
            let c2 = s.get_char(2);
            if (c0 == 'o' || c0 == 'O') && (c1 == 'f' || c1 == 'F') && (c2 == 'f' || c2 == 'F') {
                Ok(Filter::Off)
            } else {
                Err(())
            }
        } else if n == 5 {
            let c0 = s.get_char(0);
            let c1 = s.get_char(1);
            let c2 = s.get_char(2);
            let c3 = s.get_char(3);
            let c4 = s.get_char(4);
            if (c0 == 'e' || c0 == 'E') && (c1 == 'x' || c1 == 'X') && (c2 == 'a' || c2 == 'A')
                && (c3 == 'c' || c3 == 'C') && (c4 == 't' || c4 == 'T') {
                Ok(Filter::Exact)
            } else if (c0 == 'f' || c0 == 'F') && (c1 == 'u' || c1 == 'U') && (c2 == 'z' || c2
                == 'Z') && (c3 == 'z' || c3 == 'Z') && (c4 == 'y' || c4 == 'Y') {
                Ok(Filter::Fuzzy)
            } else {
                Err(())
            }
        } else {
            Err(())
        }
    }
}

} // verus!
