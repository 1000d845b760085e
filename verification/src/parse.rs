use crate::strutil::str_eq;
use crate::widget::Filter;
use crate::widget::Widget;
use crate::widget::WidgetV;
use crate::widget::spec_filter_from;
use crate::widget::views_of;
use vstd::prelude::*;

verus! {

// ---------------------------------------------------------------------------
// Characters and scanning
// ---------------------------------------------------------------------------

/// Whitespace inside a line of the description language.
pub open spec fn is_space(c: char) -> bool {
    c == ' ' || c == '\t' || c == '\r' || c == '\u{b}' || c == '\u{c}'
}

/// A character of a parameter name.
pub open spec fn is_word_char(c: char) -> bool {
    ('a' <= c && c <= 'z') || ('A' <= c && c <= 'Z') || ('0' <= c && c <= '9') || c == '_'
}

/// A character of an unquoted parameter value: anything up to the next
/// quote, comma or whitespace.
pub open spec fn is_value_char(c: char) -> bool {
    c != '"' && c != ',' && !is_space(c)
}

/// The first position at or after `from` that holds `c`.
pub open spec fn spec_index_of_from(l: Seq<char>, c: char, from: int) -> Option<int>
    decreases l.len() - from,
{
    if from >= l.len() {
        None
    } else if l[from] == c {
        Some(from)
    } else {
        spec_index_of_from(l, c, from + 1)
    }
}

/// The first position at or after `p` that is not whitespace, or the end.
pub open spec fn spec_skip_ws(l: Seq<char>, p: int) -> int
    decreases l.len() - p,
{
    if p < l.len() && is_space(l[p]) {
        spec_skip_ws(l, p + 1)
    } else {
        p
    }
}

/// The first position at or after `p` that is not a name character.
pub open spec fn spec_word_end(l: Seq<char>, p: int) -> int
    decreases l.len() - p,
{
    if p < l.len() && is_word_char(l[p]) {
        spec_word_end(l, p + 1)
    } else {
        p
    }
}

/// The first position at or after `p` that ends an unquoted value.
pub open spec fn spec_value_end(l: Seq<char>, p: int) -> int
    decreases l.len() - p,
{
    if p < l.len() && is_value_char(l[p]) {
        spec_value_end(l, p + 1)
    } else {
        p
    }
}

/// The word `kw` occurs in `l` starting at position `p`.
pub open spec fn starts_with_at(l: Seq<char>, kw: Seq<char>, p: int) -> bool {
    &&& 0 <= p
    &&& p + kw.len() <= l.len()
    &&& l.subrange(p, p + kw.len()) == kw
}

// ---------------------------------------------------------------------------
// Splitting the child's output into lines
// ---------------------------------------------------------------------------

/// A line without its trailing carriage return, if it carries one.
pub open spec fn strip_cr(l: Seq<char>) -> Seq<char> {
    if l.len() > 0 && l.last() == '\r' {
        l.drop_last()
    } else {
        l
    }
}

/// The lines of `s`: pieces between newlines, each without a trailing
/// carriage return; a final newline does not open one more line.
pub open spec fn spec_lines(s: Seq<char>) -> Seq<Seq<char>>
    decreases s.len(),
{
    if s.len() == 0 {
        Seq::empty()
    } else {
        match spec_index_of_from(s, '\n', 0) {
            Some(i) => if 0 <= i < s.len() {
                seq![strip_cr(s.take(i))] + spec_lines(s.skip(i + 1))
            } else {
                seq![strip_cr(s)]
            },
            None => seq![strip_cr(s)],
        }
    }
}

// ---------------------------------------------------------------------------
// Finding a directive in a line
// ---------------------------------------------------------------------------

/// The span between the parentheses when `kw`, optional whitespace, an
/// opening parenthesis and a later closing parenthesis stand at `p`.
pub open spec fn paren_body_at(l: Seq<char>, kw: Seq<char>, p: int) -> Option<(int, int)> {
    if starts_with_at(l, kw, p) {
        let q = spec_skip_ws(l, p + kw.len());
        if q < l.len() && l[q] == '(' {
            match spec_index_of_from(l, ')', q + 1) {
                Some(r) => Some((q + 1, r)),
                None => None,
            }
        } else {
            None
        }
    } else {
        None
    }
}

/// The body span of the leftmost completed `kw ( ... )` at or after `p`.
pub open spec fn find_paren_directive(l: Seq<char>, kw: Seq<char>, p: int) -> Option<(int, int)>
    decreases l.len() - p,
{
    if p < 0 || kw.len() == 0 || p + kw.len() > l.len() {
        None
    } else if paren_body_at(l, kw, p) is Some {
        paren_body_at(l, kw, p)
    } else {
        find_paren_directive(l, kw, p + 1)
    }
}

/// The word `kw` followed directly by `("` stands at `p`.
pub open spec fn quoted_start_at(l: Seq<char>, kw: Seq<char>, p: int) -> bool {
    &&& starts_with_at(l, kw, p)
    &&& p + kw.len() + 2 <= l.len()
    &&& l[p + kw.len()] == '('
    &&& l[p + kw.len() + 1] == '"'
}

/// The leftmost position at or after `p` where `kw("` stands.
pub open spec fn find_quoted_start(l: Seq<char>, kw: Seq<char>, p: int) -> Option<int>
    decreases l.len() - p,
{
    if p < 0 || kw.len() == 0 || p + kw.len() + 2 > l.len() {
        None
    } else if quoted_start_at(l, kw, p) {
        Some(p)
    } else {
        find_quoted_start(l, kw, p + 1)
    }
}

/// The last position before `end` where `")` stands.
pub open spec fn last_qp_before(l: Seq<char>, end: int) -> Option<int>
    decreases end,
{
    if end < 2 || end > l.len() {
        None
    } else if l[end - 2] == '"' && l[end - 1] == ')' {
        Some(end - 2)
    } else {
        last_qp_before(l, end - 1)
    }
}

/// The capture of the legacy quoted form `kw("...")`: everything between
/// the opening quote and the last `")` of the line, quotes included in
/// the middle if the line holds more of them.
pub open spec fn legacy_capture(l: Seq<char>, kw: Seq<char>) -> Option<Seq<char>> {
    match (find_quoted_start(l, kw, 0), last_qp_before(l, l.len() as int)) {
        (Some(p), Some(e)) => if p + kw.len() + 2 <= e {
            Some(l.subrange(p + kw.len() + 2, e))
        } else {
            None
        },
        _ => None,
    }
}

/// A quit directive at `p`: `kw` is `QUIT(`, followed by `)` for the bare
/// form or by a quoted command without embedded quotes.
pub open spec fn quit_at(l: Seq<char>, kw: Seq<char>, p: int) -> Option<Option<Seq<char>>> {
    if starts_with_at(l, kw, p) {
        let q = p + kw.len();
        if q < l.len() && l[q] == ')' {
            Some(None)
        } else if q < l.len() && l[q] == '"' {
            match spec_index_of_from(l, '"', q + 1) {
                Some(e) => if e + 1 < l.len() && l[e + 1] == ')' {
                    Some(Some(l.subrange(q + 1, e)))
                } else {
                    None
                },
                None => None,
            }
        } else {
            None
        }
    } else {
        None
    }
}

/// The leftmost completed quit directive at or after `p`.
pub open spec fn find_quit(l: Seq<char>, kw: Seq<char>, p: int) -> Option<Option<Seq<char>>>
    decreases l.len() - p,
{
    if p < 0 || kw.len() == 0 || p + kw.len() > l.len() {
        None
    } else if quit_at(l, kw, p) is Some {
        quit_at(l, kw, p)
    } else {
        find_quit(l, kw, p + 1)
    }
}

// ---------------------------------------------------------------------------
// Parameter lists
// ---------------------------------------------------------------------------

/// A parameter at `p`: a name, `=`, and a quoted or unquoted value, with
/// whitespace allowed around the equals sign. The result carries the
/// position right after the value.
pub open spec fn param_at(s: Seq<char>, p: int) -> Option<(Seq<char>, Seq<char>, int)> {
    let we = spec_word_end(s, p);
    if we == p {
        None
    } else {
        let q = spec_skip_ws(s, we);
        if q < s.len() && s[q] == '=' {
            let m = spec_skip_ws(s, q + 1);
            if m < s.len() && s[m] == '"' {
                match spec_index_of_from(s, '"', m + 1) {
                    Some(e) => Some((s.subrange(p, we), s.subrange(m + 1, e), e + 1)),
                    None => None,
                }
            } else {
                let ve = spec_value_end(s, m);
                if ve == m {
                    None
                } else {
                    Some((s.subrange(p, we), s.subrange(m, ve), ve))
                }
            }
        } else {
            None
        }
    }
}

/// All `name = value` pairs of a parameter list, in order; positions where
/// no parameter starts are skipped one character at a time.
pub open spec fn spec_parse_params(s: Seq<char>, p: int) -> Seq<(Seq<char>, Seq<char>)>
    decreases s.len() - p,
{
    if p < 0 || p >= s.len() {
        Seq::empty()
    } else {
        match param_at(s, p) {
            Some((n, v, next)) => if p < next <= s.len() {
                seq![(n, v)] + spec_parse_params(s, next)
            } else {
                seq![(n, v)]
            },
            None => spec_parse_params(s, p + 1),
        }
    }
}

/// The fields an `INPUT` line assigns, beginning at their defaults.
pub ghost struct InputParams {
    pub filter: Filter,
    pub label: Seq<char>,
    pub content: Seq<char>,
    pub selectable: bool,
    pub hidden: bool,
}

/// The defaults of an `INPUT` line.
pub open spec fn input_defaults() -> InputParams {
    InputParams {
        filter: Filter::Off,
        label: Seq::empty(),
        content: Seq::empty(),
        selectable: true,
        hidden: false,
    }
}

/// Fold the recognized parameters of an `INPUT` line over the defaults,
/// later values overriding earlier ones; an unreadable `filter` value is
/// a fatal error that carries the offending value. Unknown names are
/// ignored.
pub open spec fn apply_input_params(ps: Seq<(Seq<char>, Seq<char>)>, acc: InputParams) -> Result<
    InputParams,
    Seq<char>,
>
    decreases ps.len(),
{
    if ps.len() == 0 {
        Ok(acc)
    } else {
        let (n, v) = ps[0];
        if n == "filter"@ {
            match spec_filter_from(v) {
                Some(f) => apply_input_params(
                    ps.drop_first(),
                    InputParams { filter: f, ..acc },
                ),
                None => Err(v),
            }
        } else if n == "label"@ {
            apply_input_params(ps.drop_first(), InputParams { label: v, ..acc })
        } else if n == "content"@ {
            apply_input_params(ps.drop_first(), InputParams { content: v, ..acc })
        } else if n == "selectable"@ {
            apply_input_params(ps.drop_first(), InputParams { selectable: v == "true"@, ..acc })
        } else if n == "hidden"@ {
            apply_input_params(ps.drop_first(), InputParams { hidden: v == "true"@, ..acc })
        } else {
            apply_input_params(ps.drop_first(), acc)
        }
    }
}

/// The fields a parameterized `TEXT` line assigns.
pub ghost struct TextParams {
    pub content: Seq<char>,
    pub selectable: bool,
}

/// Fold the recognized parameters of a parameterized `TEXT` line over its
/// defaults. Unknown names are ignored and nothing can fail.
pub open spec fn apply_text_params(ps: Seq<(Seq<char>, Seq<char>)>, acc: TextParams) -> TextParams
    decreases ps.len(),
{
    if ps.len() == 0 {
        acc
    } else {
        let (n, v) = ps[0];
        if n == "content"@ {
            apply_text_params(ps.drop_first(), TextParams { content: v, ..acc })
        } else if n == "selectable"@ {
            apply_text_params(ps.drop_first(), TextParams { selectable: v == "true"@, ..acc })
        } else {
            apply_text_params(ps.drop_first(), acc)
        }
    }
}

// ---------------------------------------------------------------------------
// Classifying one line
// ---------------------------------------------------------------------------

/// What one line of the child's output means.
pub ghost enum LineV {
    /// An `INPUT(...)` line with its parameter pairs.
    Input(Seq<(Seq<char>, Seq<char>)>),
    /// A legacy `TEXT("...")` line with its capture.
    TextLegacy(Seq<char>),
    /// A parameterized `TEXT(...)` line with its parameter pairs.
    TextParams(Seq<(Seq<char>, Seq<char>)>),
    /// A `DATA("...")` line with its capture.
    Data(Seq<char>),
    /// A `QUIT()` or `QUIT("...")` line with its optional command.
    Quit(Option<Seq<char>>),
    /// A line that matches no directive; it is ignored.
    Plain,
}

/// Classify one line, trying the directives in a fixed order: `INPUT`,
/// the legacy quoted `TEXT`, the parameterized `TEXT`, `DATA`, `QUIT`.
pub open spec fn classify_line(l: Seq<char>) -> LineV {
    match find_paren_directive(l, "INPUT"@, 0) {
        Some((s, e)) => LineV::Input(spec_parse_params(l.subrange(s, e), 0)),
        None => match legacy_capture(l, "TEXT"@) {
            Some(c) => LineV::TextLegacy(c),
            None => match find_paren_directive(l, "TEXT"@, 0) {
                Some((s, e)) => LineV::TextParams(spec_parse_params(l.subrange(s, e), 0)),
                None => match legacy_capture(l, "DATA"@) {
                    Some(c) => LineV::Data(c),
                    None => match find_quit(l, "QUIT("@, 0) {
                        Some(q) => LineV::Quit(q),
                        None => LineV::Plain,
                    },
                },
            },
        },
    }
}

// ---------------------------------------------------------------------------
// Folding the lines into the parsed model
// ---------------------------------------------------------------------------

/// The result of a parse: the widgets in order, the data channel's value,
/// and the quit directive if one stopped the parse (`Some(None)` for the
/// bare form, `Some(Some(cmd))` for the command form).
pub ghost struct ParseV {
    pub widgets: Seq<WidgetV>,
    pub data: Seq<char>,
    pub quit: Option<Option<Seq<char>>>,
}

/// The empty parse state.
pub open spec fn parse_init() -> ParseV {
    ParseV { widgets: Seq::empty(), data: Seq::empty(), quit: None }
}

/// The input widget an `INPUT` line appends at position `id`; its row
/// equals its position at parse time.
pub open spec fn input_widget(ip: InputParams, id: int) -> WidgetV {
    WidgetV::Input {
        y: id,
        filter: ip.filter,
        label: ip.label,
        content: ip.content,
        selectable: ip.selectable,
        hidden: ip.hidden,
        id: id,
    }
}

/// The text widget a `TEXT` line appends at position `id`.
pub open spec fn text_widget(content: Seq<char>, selectable: bool, id: int) -> WidgetV {
    WidgetV::Text { y: id, content: content, selectable: selectable, show: true, id: id }
}

/// Process the lines from position `k` onward over the state `acc`:
/// recognized widget lines append a widget whose row and stable index are
/// the widget count so far, `DATA` replaces the data value without taking
/// a row, a quit directive clears the widgets and stops, and everything
/// else is ignored. An unreadable `filter` value stops the whole parse
/// with that value as the error.
pub open spec fn parse_lines_from(ls: Seq<Seq<char>>, k: int, acc: ParseV) -> Result<
    ParseV,
    Seq<char>,
>
    decreases ls.len() - k,
{
    if k < 0 || k >= ls.len() {
        Ok(acc)
    } else {
        match classify_line(ls[k]) {
            LineV::Input(ps) => match apply_input_params(ps, input_defaults()) {
                Ok(ip) => parse_lines_from(
                    ls,
                    k + 1,
                    ParseV {
                        widgets: acc.widgets.push(input_widget(ip, acc.widgets.len() as int)),
                        ..acc
                    },
                ),
                Err(v) => Err(v),
            },
            LineV::TextLegacy(c) => parse_lines_from(
                ls,
                k + 1,
                ParseV {
                    widgets: acc.widgets.push(text_widget(c, true, acc.widgets.len() as int)),
                    ..acc
                },
            ),
            LineV::TextParams(ps) => if ps.len() == 0 {
                parse_lines_from(ls, k + 1, acc)
            } else {
                let tp = apply_text_params(
                    ps,
                    TextParams { content: Seq::empty(), selectable: true },
                );
                parse_lines_from(
                    ls,
                    k + 1,
                    ParseV {
                        widgets: acc.widgets.push(
                            text_widget(tp.content, tp.selectable, acc.widgets.len() as int),
                        ),
                        ..acc
                    },
                )
            },
            LineV::Data(c) => parse_lines_from(ls, k + 1, ParseV { data: c, ..acc }),
            LineV::Quit(q) => Ok(ParseV { widgets: Seq::empty(), data: acc.data, quit: Some(q) }),
            LineV::Plain => parse_lines_from(ls, k + 1, acc),
        }
    }
}

/// What parsing one standard output of the child yields.
pub open spec fn spec_parse(s: Seq<char>) -> Result<ParseV, Seq<char>> {
    parse_lines_from(spec_lines(s), 0, parse_init())
}


// ---------------------------------------------------------------------------
// Scanning, executable
// ---------------------------------------------------------------------------

/// Whitespace, executable.
fn is_space_x(c: char) -> (r: bool)
    ensures
        r == is_space(c),
{
    c == ' ' || c == '\t' || c == '\r' || c == '\u{b}' || c == '\u{c}'
}

/// A name character, executable.
fn is_word_char_x(c: char) -> (r: bool)
    ensures
        r == is_word_char(c),
{
    ('a' <= c && c <= 'z') || ('A' <= c && c <= 'Z') || ('0' <= c && c <= '9') || c == '_'
}

/// An unquoted value character, executable.
fn is_value_char_x(c: char) -> (r: bool)
    ensures
        r == is_value_char(c),
{
    c != '"' && c != ',' && !is_space_x(c)
}

/// First position at or after `from` holding `c`, executable.
fn index_of_from_x(l: &str, c: char, from: usize) -> (r: Option<usize>)
    requires
        from <= l@.len(),
    ensures
        r matches Some(i) ==> spec_index_of_from(l@, c, from as int) == Some(i as int) && from <= i
            < l@.len(),
        r is None ==> spec_index_of_from(l@, c, from as int) is None,
{
    let len = l.unicode_len();
    let mut p = from;
    while p < len
        invariant
            len == l@.len(),
            from <= p <= len,
            spec_index_of_from(l@, c, from as int) == spec_index_of_from(l@, c, p as int),
        decreases len - p,
    {
        if l.get_char(p) == c {
            return Some(p);
        }
        p += 1;
    }
    None
}

/// First non-whitespace position at or after `p`, executable.
fn skip_ws_x(l: &str, p: usize) -> (r: usize)
    requires
        p <= l@.len(),
    ensures
        r == spec_skip_ws(l@, p as int),
        p <= r <= l@.len(),
{
    let len = l.unicode_len();
    let mut q = p;
    while q < len && is_space_x(l.get_char(q))
        invariant
            len == l@.len(),
            p <= q <= len,
            spec_skip_ws(l@, p as int) == spec_skip_ws(l@, q as int),
        decreases len - q,
    {
        q += 1;
    }
    q
}

/// First position at or after `p` that is not a name character, executable.
fn word_end_x(l: &str, p: usize) -> (r: usize)
    requires
        p <= l@.len(),
    ensures
        r == spec_word_end(l@, p as int),
        p <= r <= l@.len(),
{
    let len = l.unicode_len();
    let mut q = p;
    while q < len && is_word_char_x(l.get_char(q))
        invariant
            len == l@.len(),
            p <= q <= len,
            spec_word_end(l@, p as int) == spec_word_end(l@, q as int),
        decreases len - q,
    {
        q += 1;
    }
    q
}

/// First position at or after `p` that ends an unquoted value, executable.
fn value_end_x(l: &str, p: usize) -> (r: usize)
    requires
        p <= l@.len(),
    ensures
        r == spec_value_end(l@, p as int),
        p <= r <= l@.len(),
{
    let len = l.unicode_len();
    let mut q = p;
    while q < len && is_value_char_x(l.get_char(q))
        invariant
            len == l@.len(),
            p <= q <= len,
            spec_value_end(l@, p as int) == spec_value_end(l@, q as int),
        decreases len - q,
    {
        q += 1;
    }
    q
}

/// The word `kw` stands in `l` at `p`, executable.
fn starts_with_at_x(l: &str, kw: &str, p: usize) -> (r: bool)
    requires
        p <= l@.len(),
    ensures
        r == starts_with_at(l@, kw@, p as int),
{
    let ll = l.unicode_len();
    let kl = kw.unicode_len();
    if kl > ll - p {
        return false;
    }
    let mut j: usize = 0;
    while j < kl
        invariant
            ll == l@.len(),
            kl == kw@.len(),
            p + kl <= ll,
            j <= kl,
            forall|k: int| 0 <= k < j ==> l@[p + k] == kw@[k],
        decreases kl - j,
    {
        if l.get_char(p + j) != kw.get_char(j) {
            proof {
                assert(l@.subrange(p as int, p + kl)[j as int] == l@[p + j]);
            }
            return false;
        }
        j += 1;
    }
    proof {
        assert(l@.subrange(p as int, p + kl) =~= kw@);
    }
    true
}

// ---------------------------------------------------------------------------
// Finding a directive, executable
// ---------------------------------------------------------------------------

/// The parenthesis body at `p`, executable.
fn paren_body_at_x(l: &str, kw: &str, p: usize) -> (r: Option<(usize, usize)>)
    requires
        p <= l@.len(),
    ensures
        r matches Some((s, e)) ==> paren_body_at(l@, kw@, p as int) == Some((s as int, e as int))
            && s <= e < l@.len(),
        r is None ==> paren_body_at(l@, kw@, p as int) is None,
{
    if !starts_with_at_x(l, kw, p) {
        return None;
    }
    let kl = kw.unicode_len();
    let ll = l.unicode_len();
    let q = skip_ws_x(l, p + kl);
    if q < ll && l.get_char(q) == '(' {
        match index_of_from_x(l, ')', q + 1) {
            Some(e) => Some((q + 1, e)),
            None => None,
        }
    } else {
        None
    }
}

/// The leftmost completed `kw ( ... )`, executable.
fn find_paren_x(l: &str, kw: &str) -> (r: Option<(usize, usize)>)
    ensures
        r matches Some((s, e)) ==> find_paren_directive(l@, kw@, 0) == Some((s as int, e as int))
            && s <= e < l@.len(),
        r is None ==> find_paren_directive(l@, kw@, 0) is None,
{
    let ll = l.unicode_len();
    let kl = kw.unicode_len();
    if kl == 0 || kl > ll {
        return None;
    }
    let mut p: usize = 0;
    while p <= ll - kl
        invariant
            ll == l@.len(),
            kl == kw@.len(),
            1 <= kl <= ll,
            p <= ll - kl + 1,
            find_paren_directive(l@, kw@, 0) == find_paren_directive(l@, kw@, p as int),
        decreases ll - p,
    {
        match paren_body_at_x(l, kw, p) {
            Some((s, e)) => {
                return Some((s, e));
            },
            None => {
                p += 1;
            },
        }
    }
    None
}

/// The leftmost `kw("`, executable.
fn find_quoted_x(l: &str, kw: &str) -> (r: Option<usize>)
    ensures
        r matches Some(p) ==> find_quoted_start(l@, kw@, 0) == Some(p as int) && p + kw@.len() + 2
            <= l@.len(),
        r is None ==> find_quoted_start(l@, kw@, 0) is None,
{
    let ll = l.unicode_len();
    let kl = kw.unicode_len();
    if kl == 0 || ll < 2 || kl > ll - 2 {
        return None;
    }
    let mut p: usize = 0;
    while p <= ll - kl - 2
        invariant
            ll == l@.len(),
            kl == kw@.len(),
            1 <= kl && kl + 2 <= ll,
            p <= ll - kl - 1,
            find_quoted_start(l@, kw@, 0) == find_quoted_start(l@, kw@, p as int),
        decreases ll - p,
    {
        if starts_with_at_x(l, kw, p) && l.get_char(p + kl) == '(' && l.get_char(p + kl + 1)
            == '"' {
            return Some(p);
        }
        p += 1;
    }
    None
}

/// The last `")` of the line, executable.
fn last_qp_x(l: &str) -> (r: Option<usize>)
    ensures
        r matches Some(e) ==> last_qp_before(l@, l@.len() as int) == Some(e as int) && e + 2
            <= l@.len(),
        r is None ==> last_qp_before(l@, l@.len() as int) is None,
{
    let ll = l.unicode_len();
    let mut end = ll;
    while end >= 2
        invariant
            ll == l@.len(),
            end <= ll,
            last_qp_before(l@, ll as int) == last_qp_before(l@, end as int),
        decreases end,
    {
        if l.get_char(end - 2) == '"' && l.get_char(end - 1) == ')' {
            return Some(end - 2);
        }
        end -= 1;
    }
    None
}

/// The capture of the legacy quoted form, executable.
fn legacy_capture_x<'a>(l: &'a str, kw: &str) -> (r: Option<&'a str>)
    ensures
        r matches Some(c) ==> legacy_capture(l@, kw@) == Some(c@) && c@.len() <= l@.len(),
        r is None ==> legacy_capture(l@, kw@) is None,
{
    let kl = kw.unicode_len();
    let ll = l.unicode_len();
    match (find_quoted_x(l, kw), last_qp_x(l)) {
        (Some(p), Some(e)) => {
            if p + kl + 2 <= e {
                Some(l.substring_char(p + kl + 2, e))
            } else {
                None
            }
        },
        _ => None,
    }
}

/// The quit directive at `p`, executable.
fn quit_at_x<'a>(l: &'a str, kw: &str, p: usize) -> (r: Option<Option<&'a str>>)
    requires
        p <= l@.len(),
    ensures
        r matches Some(q) ==> quit_at(l@, kw@, p as int) == Some(
            match q {
                Some(c) => Some(c@),
                None => None,
            },
        ),
        r is None ==> quit_at(l@, kw@, p as int) is None,
{
    if !starts_with_at_x(l, kw, p) {
        return None;
    }
    let kl = kw.unicode_len();
    let ll = l.unicode_len();
    let q = p + kl;
    if q < ll && l.get_char(q) == ')' {
        Some(None)
    } else if q < ll && l.get_char(q) == '"' {
        match index_of_from_x(l, '"', q + 1) {
            Some(e) => {
                if e + 1 < ll && l.get_char(e + 1) == ')' {
                    Some(Some(l.substring_char(q + 1, e)))
                } else {
                    None
                }
            },
            None => None,
        }
    } else {
        None
    }
}

/// The leftmost completed quit directive, executable.
fn find_quit_x<'a>(l: &'a str, kw: &str) -> (r: Option<Option<&'a str>>)
    ensures
        r matches Some(q) ==> find_quit(l@, kw@, 0) == Some(
            match q {
                Some(c) => Some(c@),
                None => None,
            },
        ),
        r is None ==> find_quit(l@, kw@, 0) is None,
{
    let ll = l.unicode_len();
    let kl = kw.unicode_len();
    if kl == 0 || kl > ll {
        return None;
    }
    let mut p: usize = 0;
    while p <= ll - kl
        invariant
            ll == l@.len(),
            kl == kw@.len(),
            1 <= kl <= ll,
            p <= ll - kl + 1,
            find_quit(l@, kw@, 0) == find_quit(l@, kw@, p as int),
        decreases ll - p,
    {
        match quit_at_x(l, kw, p) {
            Some(q) => {
                return Some(q);
            },
            None => {
                p += 1;
            },
        }
    }
    None
}

// ---------------------------------------------------------------------------
// Parameter lists, executable
// ---------------------------------------------------------------------------

/// The parameter at `p`, executable.
fn param_at_x<'a>(s: &'a str, p: usize) -> (r: Option<(&'a str, &'a str, usize)>)
    requires
        p <= s@.len(),
    ensures
        r matches Some((n, v, next)) ==> param_at(s@, p as int) == Some((n@, v@, next as int)) && p
            < next <= s@.len() && n@.len() <= s@.len() && v@.len() <= s@.len(),
        r is None ==> param_at(s@, p as int) is None,
{
    let len = s.unicode_len();
    let we = word_end_x(s, p);
    if we == p {
        return None;
    }
    let q = skip_ws_x(s, we);
    if q < len && s.get_char(q) == '=' {
        let m = skip_ws_x(s, q + 1);
        if m < len && s.get_char(m) == '"' {
            match index_of_from_x(s, '"', m + 1) {
                Some(e) => Some((s.substring_char(p, we), s.substring_char(m + 1, e), e + 1)),
                None => None,
            }
        } else {
            let ve = value_end_x(s, m);
            if ve == m {
                None
            } else {
                Some((s.substring_char(p, we), s.substring_char(m, ve), ve))
            }
        }
    } else {
        None
    }
}

/// Whether a parameter list holds at least one parameter, executable.
fn has_any_param(s: &str) -> (r: bool)
    ensures
        r == (spec_parse_params(s@, 0).len() != 0),
{
    let len = s.unicode_len();
    let mut p: usize = 0;
    while p < len
        invariant
            len == s@.len(),
            p <= len,
            spec_parse_params(s@, 0) == spec_parse_params(s@, p as int),
        decreases len - p,
    {
        match param_at_x(s, p) {
            Some(_) => {
                return true;
            },
            None => {
                p += 1;
            },
        }
    }
    false
}

/// Read the parameters of an `INPUT` line over its defaults; an
/// unreadable `filter` value is returned as the error.
fn parse_input_params(body: &str) -> (r: Result<(Filter, String, String, bool, bool), String>)
    ensures
        r matches Ok((f, lbl, cnt, sel, hid)) ==> apply_input_params(
            spec_parse_params(body@, 0),
            input_defaults(),
        ) == Ok::<InputParams, Seq<char>>(
            InputParams {
                filter: f,
                label: lbl@,
                content: cnt@,
                selectable: sel,
                hidden: hid,
            },
        ) && lbl@.len() <= body@.len() && cnt@.len() <= body@.len(),
        r matches Err(v) ==> apply_input_params(spec_parse_params(body@, 0), input_defaults())
            == Err::<InputParams, Seq<char>>(v@),
{
    let mut filter = Filter::Off;
    let mut label = String::new();
    let mut content = String::new();
    let mut selectable = true;
    let mut hidden = false;
    let len = body.unicode_len();
    let mut p: usize = 0;
    while p < len
        invariant
            len == body@.len(),
            p <= len,
            label@.len() <= len,
            content@.len() <= len,
            apply_input_params(spec_parse_params(body@, 0), input_defaults())
                == apply_input_params(
                spec_parse_params(body@, p as int),
                InputParams {
                    filter: filter,
                    label: label@,
                    content: content@,
                    selectable: selectable,
                    hidden: hidden,
                },
            ),
        decreases len - p,
    {
        match param_at_x(body, p) {
            Some((name, value, next)) => {
                proof {
                    assert((seq![(name@, value@)] + spec_parse_params(body@, next as int))
                        .drop_first() =~= spec_parse_params(body@, next as int));
                }
                if str_eq(name, "filter") {
                    match Filter::from_str(value) {
                        Ok(f) => {
                            filter = f;
                        },
                        Err(()) => {
                            return Err(String::from_str(value));
                        },
                    }
                } else if str_eq(name, "label") {
                    label = String::from_str(value);
                } else if str_eq(name, "content") {
                    content = String::from_str(value);
                } else if str_eq(name, "selectable") {
                    selectable = str_eq(value, "true");
                } else if str_eq(name, "hidden") {
                    hidden = str_eq(value, "true");
                }
                p = next;
            },
            None => {
                p += 1;
            },
        }
    }
    Ok((filter, label, content, selectable, hidden))
}

/// Read the parameters of a parameterized `TEXT` line over its defaults.
fn parse_text_params(body: &str) -> (r: (String, bool))
    ensures
        apply_text_params(
            spec_parse_params(body@, 0),
            TextParams { content: Seq::empty(), selectable: true },
        ) == (TextParams { content: r.0@, selectable: r.1 }),
        r.0@.len() <= body@.len(),
{
    let mut content = String::new();
    let mut selectable = true;
    let len = body.unicode_len();
    let mut p: usize = 0;
    while p < len
        invariant
            len == body@.len(),
            p <= len,
            content@.len() <= len,
            apply_text_params(
                spec_parse_params(body@, 0),
                TextParams { content: Seq::empty(), selectable: true },
            ) == apply_text_params(
                spec_parse_params(body@, p as int),
                TextParams { content: content@, selectable: selectable },
            ),
        decreases len - p,
    {
        match param_at_x(body, p) {
            Some((name, value, next)) => {
                proof {
                    assert((seq![(name@, value@)] + spec_parse_params(body@, next as int))
                        .drop_first() =~= spec_parse_params(body@, next as int));
                }
                if str_eq(name, "content") {
                    content = String::from_str(value);
                } else if str_eq(name, "selectable") {
                    selectable = str_eq(value, "true");
                }
                p = next;
            },
            None => {
                p += 1;
            },
        }
    }
    (content, selectable)
}

// ---------------------------------------------------------------------------
// Splitting into lines, executable
// ---------------------------------------------------------------------------

/// The first hit determines what `spec_index_of_from` returns.
proof fn lemma_index_of_first(t: Seq<char>, c: char, from: int, m: int)
    requires
        0 <= from <= m < t.len(),
        t[m] == c,
        forall|k: int| from <= k < m ==> t[k] != c,
    ensures
        spec_index_of_from(t, c, from) == Some(m),
    decreases m - from,
{
    if from == m {
    } else {
        lemma_index_of_first(t, c, from + 1, m);
    }
}

/// Without a hit `spec_index_of_from` misses.
proof fn lemma_index_of_none(t: Seq<char>, c: char, from: int)
    requires
        0 <= from,
        forall|k: int| from <= k < t.len() ==> t[k] != c,
    ensures
        spec_index_of_from(t, c, from) is None,
    decreases t.len() - from,
{
    if from >= t.len() {
    } else {
        lemma_index_of_none(t, c, from + 1);
    }
}

/// Split the child's output into lines as `spec_lines` describes. No line
/// is longer than the input, and there are at most as many lines as
/// characters.
fn split_lines<'a>(s: &'a str) -> (r: Vec<&'a str>)
    ensures
        r@.map_values(|t: &str| t@) == spec_lines(s@),
        forall|k: int| 0 <= k < r@.len() ==> (#[trigger] r@[k])@.len() <= s@.len(),
        r@.len() <= s@.len(),
{
    let len = s.unicode_len();
    let mut out: Vec<&str> = Vec::new();
    let mut start: usize = 0;
    let mut i: usize = 0;
    proof {
        assert(s@.skip(0) =~= s@);
        assert(out@.map_values(|t: &str| t@) + spec_lines(s@) =~= spec_lines(s@));
    }
    while i < len
        invariant
            len == s@.len(),
            start <= i <= len,
            out@.len() <= start,
            forall|k: int| 0 <= k < out@.len() ==> (#[trigger] out@[k])@.len() <= len,
            forall|k: int| start <= k < i ==> s@[k] != '\n',
            spec_lines(s@) == out@.map_values(|t: &str| t@) + spec_lines(s@.skip(start as int)),
        decreases len - i,
    {
        if s.get_char(i) == '\n' {
            let line = if i > start && s.get_char(i - 1) == '\r' {
                s.substring_char(start, i - 1)
            } else {
                s.substring_char(start, i)
            };
            proof {
                let rest = s@.skip(start as int);
                assert(forall|k: int|
                    0 <= k < rest.len() ==> rest[k] == s@[start + k]);
                lemma_index_of_first(rest, '\n', 0, i - start);
                assert(rest.take(i - start) =~= s@.subrange(start as int, i as int));
                if i > start && s@[i - 1] == '\r' {
                    assert(strip_cr(rest.take(i - start)) =~= s@.subrange(
                        start as int,
                        i - 1,
                    ));
                } else {
                    assert(strip_cr(rest.take(i - start)) =~= s@.subrange(
                        start as int,
                        i as int,
                    ));
                }
                assert(rest.skip(i - start + 1) =~= s@.skip(i + 1));
                assert(spec_lines(rest) == seq![line@] + spec_lines(s@.skip(i + 1)));
                assert(out@.push(line).map_values(|t: &str| t@) =~= out@.map_values(
                    |t: &str| t@,
                ).push(line@));
                assert(out@.map_values(|t: &str| t@) + (seq![line@] + spec_lines(
                    s@.skip(i + 1),
                )) =~= out@.map_values(|t: &str| t@).push(line@) + spec_lines(s@.skip(i + 1)));
            }
            out.push(line);
            start = i + 1;
        }
        i += 1;
    }
    if start < len {
        let line = if s.get_char(len - 1) == '\r' {
            s.substring_char(start, len - 1)
        } else {
            s.substring_char(start, len)
        };
        proof {
            let rest = s@.skip(start as int);
            assert(forall|k: int| 0 <= k < rest.len() ==> rest[k] == s@[start + k]);
            lemma_index_of_none(rest, '\n', 0);
            assert(rest =~= s@.subrange(start as int, len as int));
            if s@[len - 1] == '\r' {
                assert(strip_cr(rest) =~= s@.subrange(start as int, len - 1));
            } else {
                assert(strip_cr(rest) =~= s@.subrange(start as int, len as int));
            }
            assert(spec_lines(rest) == seq![line@]);
            assert(out@.push(line).map_values(|t: &str| t@) =~= out@.map_values(
                |t: &str| t@,
            ).push(line@));
            assert(out@.map_values(|t: &str| t@) + seq![line@] =~= out@.map_values(
                |t: &str| t@,
            ).push(line@));
        }
        out.push(line);
    } else {
        proof {
            assert(s@.skip(start as int) =~= Seq::<char>::empty());
            assert(out@.map_values(|t: &str| t@) + spec_lines(s@.skip(start as int))
                =~= out@.map_values(|t: &str| t@));
        }
    }
    out
}

// ---------------------------------------------------------------------------
// Classifying one line, executable
// ---------------------------------------------------------------------------

/// What one line means, with borrowed pieces of the line.
enum LineX<'a> {
    Input(&'a str),
    TextLegacy(&'a str),
    TextParams(&'a str),
    Data(&'a str),
    Quit(Option<&'a str>),
    Plain,
}

/// Classify one line in the fixed directive order, executable.
fn classify_x<'a>(l: &'a str) -> (r: LineX<'a>)
    ensures
        r matches LineX::Input(b) ==> classify_line(l@) == LineV::Input(spec_parse_params(b@, 0))
            && b@.len() <= l@.len(),
        r matches LineX::TextLegacy(c) ==> classify_line(l@) == LineV::TextLegacy(c@) && c@.len()
            <= l@.len(),
        r matches LineX::TextParams(b) ==> classify_line(l@) == LineV::TextParams(
            spec_parse_params(b@, 0),
        ) && b@.len() <= l@.len(),
        r matches LineX::Data(c) ==> classify_line(l@) == LineV::Data(c@),
        r matches LineX::Quit(q) ==> classify_line(l@) == LineV::Quit(
            match q {
                Some(c) => Some(c@),
                None => None,
            },
        ),
        r matches LineX::Plain ==> classify_line(l@) == LineV::Plain,
{
    if let Some((s, e)) = find_paren_x(l, "INPUT") {
        return LineX::Input(l.substring_char(s, e));
    }
    if let Some(c) = legacy_capture_x(l, "TEXT") {
        return LineX::TextLegacy(c);
    }
    if let Some((s, e)) = find_paren_x(l, "TEXT") {
        return LineX::TextParams(l.substring_char(s, e));
    }
    if let Some(c) = legacy_capture_x(l, "DATA") {
        return LineX::Data(c);
    }
    if let Some(q) = find_quit_x(l, "QUIT(") {
        return LineX::Quit(q);
    }
    LineX::Plain
}

// ---------------------------------------------------------------------------
// The parser
// ---------------------------------------------------------------------------

/// The one fatal parse error: a `filter` parameter with an unreadable
/// value, which is carried along for the report.
#[derive(Debug, Clone)]
pub struct ParseError {
    pub value: String,
}

/// Parse one standard output of the child into the ordered widget list,
/// the data channel's value, and the detached command of a `QUIT("...")`
/// line if one stopped the parse. The result is exactly what `spec_parse`
/// describes; every parsed widget fits the usual memory bounds.
pub fn parse_stdout(stdout: &str) -> (r: Result<
    (Vec<Widget>, String, Option<String>),
    ParseError,
>)
    requires
        stdout@.len() < 0x4000_0000,
    ensures
        r matches Ok((w, d, q)) ==> spec_parse(stdout@) matches Ok(pv) && views_of(w@)
            == pv.widgets && d@ == pv.data && (match (q, pv.quit) {
            (Some(c), Some(Some(cv))) => c@ == cv,
            (None, Some(None)) => true,
            (None, None) => true,
            _ => false,
        }) && w@.len() < 0x4000_0000 && (forall|i: int|
            0 <= i < w@.len() ==> (#[trigger] views_of(w@)[i]).wf()),
        r matches Err(e) ==> spec_parse(stdout@) matches Err(v) && e.value@ == v,
{
    let lines = split_lines(stdout);
    let nlines = lines.len();
    let mut widgets: Vec<Widget> = Vec::new();
    let mut data = String::new();
    let ghost lsv = lines@.map_values(|t: &str| t@);
    let mut k: usize = 0;
    proof {
        assert(views_of(widgets@) =~= Seq::<WidgetV>::empty());
        assert(data@ =~= Seq::<char>::empty());
        assert(ParseV { widgets: views_of(widgets@), data: data@, quit: None } == parse_init());
    }
    while k < nlines
        invariant
            stdout@.len() < 0x4000_0000,
            lsv == lines@.map_values(|t: &str| t@),
            lsv == spec_lines(stdout@),
            nlines == lines@.len(),
            nlines <= stdout@.len(),
            forall|j: int| 0 <= j < nlines ==> (#[trigger] lines@[j])@.len() <= stdout@.len(),
            k <= nlines,
            widgets@.len() <= k,
            forall|i: int| 0 <= i < widgets@.len() ==> (#[trigger] views_of(widgets@)[i]).wf(),
            spec_parse(stdout@) == parse_lines_from(
                lsv,
                k as int,
                ParseV { widgets: views_of(widgets@), data: data@, quit: None },
            ),
        decreases nlines - k,
    {
        let line = lines[k];
        let ghost acc = ParseV { widgets: views_of(widgets@), data: data@, quit: None };
        proof {
            assert(lsv[k as int] == line@);
        }
        match classify_x(line) {
            LineX::Input(body) => {
                match parse_input_params(body) {
                    Ok((filter, label, content, selectable, hidden)) => {
                        let id = widgets.len();
                        let w = Widget::Input {
                            y: id as i32,
                            filter,
                            label,
                            content,
                            selectable,
                            hidden,
                            id,
                        };
                        proof {
                            assert(views_of(widgets@.push(w)) =~= views_of(widgets@).push(w@));
                        }
                        widgets.push(w);
                    },
                    Err(v) => {
                        return Err(ParseError { value: v });
                    },
                }
            },
            LineX::TextLegacy(c) => {
                let id = widgets.len();
                let w = Widget::Text {
                    y: id as i32,
                    content: String::from_str(c),
                    selectable: true,
                    show: true,
                    id,
                };
                proof {
                    assert(views_of(widgets@.push(w)) =~= views_of(widgets@).push(w@));
                }
                widgets.push(w);
            },
            LineX::TextParams(body) => {
                if has_any_param(body) {
                    let (content, selectable) = parse_text_params(body);
                    let id = widgets.len();
                    let w = Widget::Text {
                        y: id as i32,
                        content,
                        selectable,
                        show: true,
                        id,
                    };
                    proof {
                        assert(views_of(widgets@.push(w)) =~= views_of(widgets@).push(w@));
                    }
                    widgets.push(w);
                }
            },
            LineX::Data(c) => {
                data = String::from_str(c);
            },
            LineX::Quit(q) => {
                let cmd = match q {
                    Some(c) => Some(String::from_str(c)),
                    None => None,
                };
                proof {
                    assert(views_of(Seq::<Widget>::empty()) =~= Seq::<WidgetV>::empty());
                }
                return Ok((Vec::new(), data, cmd));
            },
            LineX::Plain => {},
        }
        k += 1;
    }
    Ok((widgets, data, None))
}

// ---------------------------------------------------------------------------
// Laws of the parser
// ---------------------------------------------------------------------------

/// Helper for the index law, generalized over a state whose widgets
/// already carry their positions.
proof fn lemma_parse_ids_from(ls: Seq<Seq<char>>, k: int, acc: ParseV)
    requires
        forall|i: int| 0 <= i < acc.widgets.len() ==> (#[trigger] acc.widgets[i]).id() == i,
    ensures
        parse_lines_from(ls, k, acc) matches Ok(pv) ==> forall|i: int|
            0 <= i < pv.widgets.len() ==> (#[trigger] pv.widgets[i]).id() == i,
    decreases ls.len() - k,
{
    if k < 0 || k >= ls.len() {
    } else {
        match classify_line(ls[k]) {
            LineV::Input(ps) => match apply_input_params(ps, input_defaults()) {
                Ok(ip) => {
                    let w = input_widget(ip, acc.widgets.len() as int);
                    lemma_parse_ids_from(
                        ls,
                        k + 1,
                        ParseV { widgets: acc.widgets.push(w), ..acc },
                    );
                },
                Err(_) => {},
            },
            LineV::TextLegacy(c) => {
                let w = text_widget(c, true, acc.widgets.len() as int);
                lemma_parse_ids_from(ls, k + 1, ParseV { widgets: acc.widgets.push(w), ..acc });
            },
            LineV::TextParams(ps) => {
                if ps.len() == 0 {
                    lemma_parse_ids_from(ls, k + 1, acc);
                } else {
                    let tp = apply_text_params(
                        ps,
                        TextParams { content: Seq::empty(), selectable: true },
                    );
                    let w = text_widget(tp.content, tp.selectable, acc.widgets.len() as int);
                    lemma_parse_ids_from(
                        ls,
                        k + 1,
                        ParseV { widgets: acc.widgets.push(w), ..acc },
                    );
                }
            },
            LineV::Data(c) => {
                lemma_parse_ids_from(ls, k + 1, ParseV { data: c, ..acc });
            },
            LineV::Quit(_) => {},
            LineV::Plain => {
                lemma_parse_ids_from(ls, k + 1, acc);
            },
        }
    }
}

/// Every widget of a parsed list carries its zero-based position as its
/// stable index.
pub proof fn lemma_parse_ids(s: Seq<char>)
    ensures
        spec_parse(s) matches Ok(pv) ==> forall|i: int|
            0 <= i < pv.widgets.len() ==> (#[trigger] pv.widgets[i]).id() == i,
{
    lemma_parse_ids_from(spec_lines(s), 0, parse_init());
}

/// Parsing is a function of the output's characters alone: two parses of
/// the same output are structurally identical.
pub proof fn lemma_parse_deterministic(
    s: Seq<char>,
    r1: Result<ParseV, Seq<char>>,
    r2: Result<ParseV, Seq<char>>,
)
    requires
        r1 == spec_parse(s),
        r2 == spec_parse(s),
    ensures
        r1 == r2,
{
}

/// Empty output parses to no widgets, empty data and no quit directive,
/// so the driver loop stops.
pub proof fn lemma_parse_empty()
    ensures
        spec_parse(Seq::empty()) == Ok::<ParseV, Seq<char>>(parse_init()),
{
    assert(spec_lines(Seq::empty()) =~= Seq::<Seq<char>>::empty());
}

/// Helper for the quit law, generalized over any state the parse reached.
proof fn lemma_quit_clears_from(ls: Seq<Seq<char>>, k: int, acc: ParseV)
    requires
        acc.quit is None,
    ensures
        parse_lines_from(ls, k, acc) matches Ok(pv) ==> (pv.quit is Some ==> pv.widgets
            == Seq::<WidgetV>::empty()),
    decreases ls.len() - k,
{
    if k < 0 || k >= ls.len() {
    } else {
        match classify_line(ls[k]) {
            LineV::Input(ps) => match apply_input_params(ps, input_defaults()) {
                Ok(ip) => {
                    let w = input_widget(ip, acc.widgets.len() as int);
                    lemma_quit_clears_from(
                        ls,
                        k + 1,
                        ParseV { widgets: acc.widgets.push(w), ..acc },
                    );
                },
                Err(_) => {},
            },
            LineV::TextLegacy(c) => {
                let w = text_widget(c, true, acc.widgets.len() as int);
                lemma_quit_clears_from(ls, k + 1, ParseV { widgets: acc.widgets.push(w), ..acc });
            },
            LineV::TextParams(ps) => {
                if ps.len() == 0 {
                    lemma_quit_clears_from(ls, k + 1, acc);
                } else {
                    let tp = apply_text_params(
                        ps,
                        TextParams { content: Seq::empty(), selectable: true },
                    );
                    let w = text_widget(tp.content, tp.selectable, acc.widgets.len() as int);
                    lemma_quit_clears_from(
                        ls,
                        k + 1,
                        ParseV { widgets: acc.widgets.push(w), ..acc },
                    );
                }
            },
            LineV::Data(c) => {
                lemma_quit_clears_from(ls, k + 1, ParseV { data: c, ..acc });
            },
            LineV::Quit(_) => {},
            LineV::Plain => {
                lemma_quit_clears_from(ls, k + 1, acc);
            },
        }
    }
}

/// A parse that stopped on a quit directive left no widgets behind.
pub proof fn lemma_quit_clears(s: Seq<char>)
    ensures
        spec_parse(s) matches Ok(pv) ==> (pv.quit is Some ==> pv.widgets
            == Seq::<WidgetV>::empty()),
{
    lemma_quit_clears_from(spec_lines(s), 0, parse_init());
}

/// Lines after a quit directive are ignored: when a parse stopped on a
/// quit, appending any further lines changes nothing about its result.
pub proof fn lemma_quit_ignores_rest(ls: Seq<Seq<char>>, extra: Seq<Seq<char>>, k: int, acc: ParseV)
    requires
        acc.quit is None,
        parse_lines_from(ls, k, acc) matches Ok(pv) && pv.quit is Some,
    ensures
        parse_lines_from(ls + extra, k, acc) == parse_lines_from(ls, k, acc),
    decreases ls.len() - k,
{
    if k < 0 || k >= ls.len() {
    } else {
        assert((ls + extra)[k] == ls[k]);
        match classify_line(ls[k]) {
            LineV::Input(ps) => match apply_input_params(ps, input_defaults()) {
                Ok(ip) => {
                    let w = input_widget(ip, acc.widgets.len() as int);
                    lemma_quit_ignores_rest(
                        ls,
                        extra,
                        k + 1,
                        ParseV { widgets: acc.widgets.push(w), ..acc },
                    );
                },
                Err(_) => {},
            },
            LineV::TextLegacy(c) => {
                let w = text_widget(c, true, acc.widgets.len() as int);
                lemma_quit_ignores_rest(
                    ls,
                    extra,
                    k + 1,
                    ParseV { widgets: acc.widgets.push(w), ..acc },
                );
            },
            LineV::TextParams(ps) => {
                if ps.len() == 0 {
                    lemma_quit_ignores_rest(ls, extra, k + 1, acc);
                } else {
                    let tp = apply_text_params(
                        ps,
                        TextParams { content: Seq::empty(), selectable: true },
                    );
                    let w = text_widget(tp.content, tp.selectable, acc.widgets.len() as int);
                    lemma_quit_ignores_rest(
                        ls,
                        extra,
                        k + 1,
                        ParseV { widgets: acc.widgets.push(w), ..acc },
                    );
                }
            },
            LineV::Data(c) => {
                lemma_quit_ignores_rest(ls, extra, k + 1, ParseV { data: c, ..acc });
            },
            LineV::Quit(_) => {},
            LineV::Plain => {
                lemma_quit_ignores_rest(ls, extra, k + 1, acc);
            },
        }
    }
}

} // verus!

