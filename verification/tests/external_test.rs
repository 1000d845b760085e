use stacklet::driver::{apply_break, join_input_contents, update_data, LoopState};
use stacklet::engine::{engine_init, engine_step, BreakCondition, Engine, Key};
use stacklet::parse::parse_stdout;
use stacklet::widget::{Filter, Widget};

#[test]
fn parse_stdout_empty() {
    assert!(parse_stdout("").unwrap().0.is_empty());
}

#[test]
fn parse_stdout_input_valid() {
    assert!(!parse_stdout("INPUT()").unwrap().0.is_empty());
    assert!(!parse_stdout("INPUT(filter=\"exact\")").unwrap().0.is_empty());
    assert!(!parse_stdout("INPUT(filter=\"exact\" label=\"foo\" content=\"bar\")")
        .unwrap()
        .0
        .is_empty());
    assert!(!parse_stdout("INPUT(content=\"\")").unwrap().0.is_empty());
}

#[test]
fn parse_stdout_input_invalid() {
    assert!(true);
}

#[test]
fn parse_stdout_text_valid() {
    assert!(!parse_stdout("TEXT(\"exact\")").unwrap().0.is_empty());
    assert!(!parse_stdout("TEXT(\"\")").unwrap().0.is_empty());
}

#[test]
fn parse_stdout_text_invalid() {
    assert!(parse_stdout("TEXT()").unwrap().0.is_empty());
}

#[test]
fn parse_stdout_full() {
    assert!(!parse_stdout("INPUT()\nTEXT()").unwrap().0.is_empty());
    assert!(!parse_stdout("INPUT(filter=\"exact\")\nTEXT()\nTEXT()")
        .unwrap()
        .0
        .is_empty());
    assert!(!parse_stdout(
        "INPUT(filter=\"exact\" label=\"foo\" content=\"bar\")\nTEXT(\"foobar\")\nTEXT()"
    )
    .unwrap()
    .0
    .is_empty());
    assert!(!parse_stdout("INPUT(content=\"\")\nINPUT(label=\"foo\")\nINPUT()")
        .unwrap()
        .0
        .is_empty());
}

#[test]
fn parse_reads_input_parameters() {
    let (widgets, data, quit) =
        parse_stdout("INPUT(filter=\"exact\" label=\"foo\" content=\"bar\")").unwrap();
    assert_eq!(widgets.len(), 1);
    assert!(data.is_empty());
    assert!(quit.is_none());
    match &widgets[0] {
        Widget::Input {
            y,
            filter,
            label,
            content,
            selectable,
            hidden,
            id,
        } => {
            assert_eq!(*y, 0);
            assert_eq!(*filter, Filter::Exact);
            assert_eq!(label, "foo");
            assert_eq!(content, "bar");
            assert!(*selectable);
            assert!(!*hidden);
            assert_eq!(*id, 0);
        }
        Widget::Text { .. } => panic!("expected an input widget"),
    }
}

#[test]
fn parse_assigns_positions_as_stable_indices() {
    let (widgets, _, _) =
        parse_stdout("TEXT(\"a\")\nnoise line\nINPUT()\nTEXT(\"b\")").unwrap();
    assert_eq!(widgets.len(), 3);
    for (k, w) in widgets.iter().enumerate() {
        match w {
            Widget::Input { y, id, .. } => {
                assert_eq!(*id, k);
                assert_eq!(*y, k as i32);
            }
            Widget::Text { y, id, .. } => {
                assert_eq!(*id, k);
                assert_eq!(*y, k as i32);
            }
        }
    }
}

#[test]
fn parse_twice_yields_identical_lists() {
    let out = "INPUT(label=\"n \")\nTEXT(\"alpha\")\nDATA(\"d\")\nTEXT(\"beta\")";
    let (w1, d1, q1) = parse_stdout(out).unwrap();
    let (w2, d2, q2) = parse_stdout(out).unwrap();
    assert_eq!(d1, d2);
    assert_eq!(q1, q2);
    assert_eq!(w1.len(), w2.len());
    for (a, b) in w1.iter().zip(w2.iter()) {
        assert_eq!(format!("{:?}", a), format!("{:?}", b));
    }
}

#[test]
fn parse_data_takes_no_row() {
    let (widgets, data, _) = parse_stdout("DATA(\"d\")\nTEXT(\"t\")").unwrap();
    assert_eq!(data, "d");
    assert_eq!(widgets.len(), 1);
    match &widgets[0] {
        Widget::Text { y, id, content, .. } => {
            assert_eq!(*y, 0);
            assert_eq!(*id, 0);
            assert_eq!(content, "t");
        }
        Widget::Input { .. } => panic!("expected a text widget"),
    }
}

#[test]
fn parse_data_alone_keeps_list_empty() {
    let (widgets, data, quit) = parse_stdout("DATA(\"x\")").unwrap();
    assert!(widgets.is_empty());
    assert_eq!(data, "x");
    assert!(quit.is_none());
}

#[test]
fn parse_quit_clears_widgets() {
    let (widgets, _, _) = parse_stdout("TEXT(\"x\")\nQUIT()").unwrap();
    assert!(widgets.is_empty());
}

#[test]
fn parse_quit_ignores_later_lines() {
    let (widgets, data, _) =
        parse_stdout("DATA(\"kept\")\nQUIT()\nTEXT(\"late\")\nDATA(\"late\")").unwrap();
    assert!(widgets.is_empty());
    assert_eq!(data, "kept");
}

#[test]
fn parse_quit_with_command_reports_it() {
    let (widgets, _, quit) = parse_stdout("QUIT(\"echo hi >/tmp/stacklet-test\")").unwrap();
    assert!(widgets.is_empty());
    assert_eq!(quit.unwrap(), "echo hi >/tmp/stacklet-test");
}

#[test]
fn parse_invalid_filter_is_fatal() {
    let err = parse_stdout("INPUT(filter=\"buzz\")").unwrap_err();
    assert_eq!(err.value, "buzz");
}

#[test]
fn one_shot_menu_selects_second_text() {
    let (mut model, _, _) = parse_stdout("TEXT(\"alpha\")\nTEXT(\"beta\")").unwrap();
    let (mut e, _) = engine_init(&mut model, 24);
    let (_, out) = engine_step(&mut e, &mut model, Key::Down);
    assert!(out.is_none());
    let (_, out) = engine_step(&mut e, &mut model, Key::Enter);
    let (bc, id) = out.unwrap();
    assert_eq!(bc, BreakCondition::SELECTION);
    assert_eq!(id, 1);

    let mut state = LoopState::new();
    apply_break(&mut state, &model, bc, id);
    assert_eq!(state.selection, "beta");
    assert_eq!(state.input, "");
    assert_eq!(join_input_contents(&model), "");
}

fn show_of(w: &Widget) -> (bool, i32) {
    match w {
        Widget::Text { show, y, .. } => (*show, *y),
        Widget::Input { y, .. } => (true, *y),
    }
}

#[test]
fn exact_filter_collapses_unmatched_rows() {
    let (mut model, _, _) =
        parse_stdout("INPUT(filter=\"exact\")\nTEXT(\"apple\")\nTEXT(\"banana\")\nTEXT(\"grape\")")
            .unwrap();
    let (mut e, _) = engine_init(&mut model, 24);
    engine_step(&mut e, &mut model, Key::Char('a'));
    engine_step(&mut e, &mut model, Key::Char('p'));
    let shows: Vec<(bool, i32)> = model.iter().map(show_of).collect();
    assert_eq!(shows[1], (true, 1));
    assert_eq!(shows[2].0, false);
    assert_eq!(shows[2].1, -1);
    assert_eq!(shows[3], (true, 2));
    match &model[0] {
        Widget::Input { content, .. } => assert_eq!(content, "ap"),
        Widget::Text { .. } => panic!("expected the input widget first"),
    }
}

#[test]
fn fuzzy_filter_keeps_close_text() {
    let (mut model, _, _) =
        parse_stdout("INPUT(filter=\"fuzzy\")\nTEXT(\"python\")\nTEXT(\"rustacean\")").unwrap();
    let (mut e, _) = engine_init(&mut model, 24);
    for c in ['p', 'y', 't', 'o', 'n'] {
        engine_step(&mut e, &mut model, Key::Char(c));
    }
    let shows: Vec<(bool, i32)> = model.iter().map(show_of).collect();
    assert!(shows[1].0);
    assert!(!shows[2].0);
}

#[test]
fn filters_fold_case_both_ways() {
    let (mut model, _, _) = parse_stdout("INPUT(filter=\"exact\")\nTEXT(\"ApPlE\")").unwrap();
    let (mut e, _) = engine_init(&mut model, 24);
    for c in ['P', 'l', 'E'] {
        engine_step(&mut e, &mut model, Key::Char(c));
    }
    let shows: Vec<(bool, i32)> = model.iter().map(show_of).collect();
    assert!(shows[1].0);
}

#[test]
fn data_channel_reaches_next_invocation() {
    let (mut model, data, _) = parse_stdout("DATA(\"payload-1\")\nINPUT()").unwrap();
    let mut state = LoopState::new();
    update_data(&mut state, data);
    assert_eq!(state.data, "payload-1");

    let (mut e, _) = engine_init(&mut model, 24);
    let (_, out) = engine_step(&mut e, &mut model, Key::Enter);
    let (bc, id) = out.unwrap();
    assert_eq!(bc, BreakCondition::INPUT);
    assert_eq!(id, 0);
    apply_break(&mut state, &model, bc, id);
    assert_eq!(state.input, "");
    assert_eq!(state.selection, "");
    assert_eq!(state.data, "payload-1");
}

#[test]
fn empty_data_keeps_previous_value() {
    let mut state = LoopState::new();
    update_data(&mut state, "first".to_string());
    update_data(&mut state, String::new());
    assert_eq!(state.data, "first");
}

#[test]
fn typing_appends_to_content() {
    let (mut model, _, _) = parse_stdout("INPUT(label=\"n \" content=\"ab\")").unwrap();
    let (mut e, _) = engine_init(&mut model, 24);
    engine_step(&mut e, &mut model, Key::Char('z'));
    match &model[0] {
        Widget::Input { content, .. } => assert_eq!(content, "abz"),
        Widget::Text { .. } => panic!("expected an input widget"),
    }
}

#[test]
fn backspace_at_label_end_is_a_noop() {
    let (mut model, _, _) = parse_stdout("INPUT(label=\"ab\" content=\"x\")").unwrap();
    let (mut e, _) = engine_init(&mut model, 24);
    assert_eq!(e.cursor_x, 3);
    engine_step(&mut e, &mut model, Key::Backspace);
    assert_eq!(e.cursor_x, 2);
    engine_step(&mut e, &mut model, Key::Backspace);
    assert_eq!(e.cursor_x, 2);
    match &model[0] {
        Widget::Input { content, .. } => assert_eq!(content, ""),
        Widget::Text { .. } => panic!("expected an input widget"),
    }
}

#[test]
fn right_arrow_at_end_of_content_is_a_noop() {
    let (mut model, _, _) = parse_stdout("INPUT(content=\"hi\")").unwrap();
    let (mut e, _) = engine_init(&mut model, 24);
    assert_eq!(e.cursor_x, 2);
    engine_step(&mut e, &mut model, Key::Right);
    assert_eq!(e.cursor_x, 2);
    engine_step(&mut e, &mut model, Key::Left);
    assert_eq!(e.cursor_x, 1);
    engine_step(&mut e, &mut model, Key::Right);
    assert_eq!(e.cursor_x, 2);
}

#[test]
fn left_arrow_stops_at_label() {
    let (mut model, _, _) = parse_stdout("INPUT(label=\"ab\" content=\"c\")").unwrap();
    let (mut e, _) = engine_init(&mut model, 24);
    assert_eq!(e.cursor_x, 3);
    engine_step(&mut e, &mut model, Key::Left);
    assert_eq!(e.cursor_x, 2);
    engine_step(&mut e, &mut model, Key::Left);
    assert_eq!(e.cursor_x, 2);
}

#[test]
fn escape_quits() {
    let (mut model, _, _) = parse_stdout("TEXT(\"x\")").unwrap();
    let (mut e, _) = engine_init(&mut model, 24);
    let (_, out) = engine_step(&mut e, &mut model, Key::Escape);
    assert_eq!(out.unwrap(), (BreakCondition::QUIT, 0));
}

#[test]
fn enter_off_any_row_quits() {
    let mut model = vec![Widget::Text {
        y: 3,
        content: "floating".to_string(),
        selectable: true,
        show: true,
        id: 0,
    }];
    let mut e = Engine {
        cursor_x: 0,
        cursor_y: 0,
        scroll_offset: 0,
        limit: 0,
        height: 24,
    };
    let (_, out) = engine_step(&mut e, &mut model, Key::Enter);
    assert_eq!(out.unwrap(), (BreakCondition::QUIT, 0));
}

#[test]
fn join_input_contents_uses_colons() {
    let (model, _, _) =
        parse_stdout("INPUT(content=\"a\")\nTEXT(\"t\")\nINPUT(content=\"b\")\nINPUT()").unwrap();
    assert_eq!(join_input_contents(&model), "a:b:");
}

#[test]
fn filter_is_idempotent_on_shows() {
    let (mut model, _, _) =
        parse_stdout("INPUT(filter=\"exact\" content=\"ap\")\nTEXT(\"apple\")\nTEXT(\"banana\")")
            .unwrap();
    stacklet::engine::filter_widgets(&mut model, Filter::Exact, "ap");
    let once: Vec<(bool, i32)> = model.iter().map(show_of).collect();
    stacklet::engine::filter_widgets(&mut model, Filter::Exact, "ap");
    let twice: Vec<(bool, i32)> = model.iter().map(show_of).collect();
    assert_eq!(once, twice);
    assert!(once[1].0);
    assert!(!once[2].0);
}

#[test]
fn filter_off_or_empty_query_shows_all() {
    let (mut model, _, _) =
        parse_stdout("INPUT(filter=\"exact\")\nTEXT(\"aa\")\nTEXT(\"bb\")").unwrap();
    stacklet::engine::filter_widgets(&mut model, Filter::Exact, "aa");
    stacklet::engine::filter_widgets(&mut model, Filter::Off, "aa");
    assert!(model.iter().map(show_of).all(|(s, _)| s));
    stacklet::engine::filter_widgets(&mut model, Filter::Exact, "aa");
    stacklet::engine::filter_widgets(&mut model, Filter::Exact, "");
    assert!(model.iter().map(show_of).all(|(s, _)| s));
}
