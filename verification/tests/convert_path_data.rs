use vexy_svgo_plugin_sdk::plugins::convert_path_data::{
    command_char, end_point, group_command, is_number_text_exec, param_count, parse_command_char,
    tokenize_path_data, write_path, CommandType, WrittenCommand,
};

#[test]
fn path_command_letters_round_trip() {
    for ch in "MmLlHhVvCcSsQqTtAaz".chars() {
        let (t, abs) = parse_command_char(ch).unwrap();
        assert_eq!(command_char(t, abs), ch);
    }
    assert_eq!(parse_command_char('Z').unwrap(), (CommandType::ClosePath, true));
    assert_eq!(parse_command_char('m').unwrap(), (CommandType::MoveTo, false));
    assert_eq!(command_char(CommandType::ClosePath, true), 'z');
    assert!(parse_command_char('x').is_err());
    assert!(parse_command_char('1').is_err());
}

#[test]
fn path_command_parameter_counts_and_end_points() {
    assert_eq!(param_count(CommandType::MoveTo), 2);
    assert_eq!(param_count(CommandType::HorizontalLineTo), 1);
    assert_eq!(param_count(CommandType::CurveTo), 6);
    assert_eq!(param_count(CommandType::QuadraticBezier), 4);
    assert_eq!(param_count(CommandType::Arc), 7);
    assert_eq!(param_count(CommandType::ClosePath), 0);
    assert_eq!(end_point(CommandType::CurveTo), (Some(4), Some(5)));
    assert_eq!(end_point(CommandType::VerticalLineTo), (None, Some(0)));
    assert_eq!(end_point(CommandType::Arc), (Some(5), Some(6)));
    assert_eq!(end_point(CommandType::ClosePath), (None, None));
    assert_eq!(group_command(CommandType::MoveTo, false), CommandType::MoveTo);
    assert_eq!(group_command(CommandType::MoveTo, true), CommandType::LineTo);
    assert_eq!(group_command(CommandType::CurveTo, true), CommandType::CurveTo);
}

fn tokens(d: &str) -> Vec<(CommandType, bool, Vec<String>)> {
    tokenize_path_data(d).into_iter().map(|t| (t.cmd_type, t.is_absolute, t.params)).collect()
}

fn texts(v: &[&str]) -> Vec<String> {
    v.iter().map(|s| s.to_string()).collect()
}

#[test]
fn number_texts_follow_the_float_grammar() {
    for t in ["1", "-1.5", ".5", "5.", "1e5", "1E+5", "+.5e-3", "007"] {
        assert!(is_number_text_exec(&t.chars().collect()), "{}", t);
    }
    for t in [".", "-", "", "1e", "e5", "1.2.3", "1e5.5", "+-1", "1e+"] {
        assert!(!is_number_text_exec(&t.chars().collect()), "{}", t);
    }
}

#[test]
fn path_data_groups_numbers_under_commands() {
    assert_eq!(
        tokens("M10 20 L30 40"),
        vec![(CommandType::MoveTo, true, texts(&["10", "20"])), (CommandType::LineTo, true, texts(&["30", "40"]))]
    );
    assert_eq!(tokens("M1 2 3 4"), vec![(CommandType::MoveTo, true, texts(&["1", "2"])), (CommandType::LineTo, true, texts(&["3", "4"]))]);
    assert_eq!(tokens("m1-2z"), vec![(CommandType::MoveTo, false, texts(&["1", "-2"])), (CommandType::ClosePath, true, vec![])]);
    assert_eq!(tokens("M1e-5 2"), vec![(CommandType::MoveTo, true, texts(&["-5", "2"]))]);
    assert_eq!(
        tokens("M0 0 Z 5 5 L 1 1"),
        vec![
            (CommandType::MoveTo, true, texts(&["0", "0"])),
            (CommandType::ClosePath, true, vec![]),
            (CommandType::LineTo, true, texts(&["5", "5"])),
            (CommandType::LineTo, true, texts(&["1", "1"])),
        ]
    );
    assert_eq!(tokens("M1 2 3"), vec![(CommandType::MoveTo, true, texts(&["1", "2"]))]);
    assert!(tokens("M1.2.3 4").is_empty());
    assert_eq!(tokens("M1 2M3 4"), vec![(CommandType::MoveTo, true, texts(&["1", "2"])), (CommandType::MoveTo, true, texts(&["3", "4"]))]);
    assert_eq!(
        tokens("M10 20 M30 40 50 60"),
        vec![
            (CommandType::MoveTo, true, texts(&["10", "20"])),
            (CommandType::MoveTo, true, texts(&["30", "40"])),
            (CommandType::LineTo, true, texts(&["50", "60"])),
        ]
    );
    assert_eq!(tokens("h5 x 6"), vec![(CommandType::HorizontalLineTo, false, texts(&["5"])), (CommandType::HorizontalLineTo, false, texts(&["6"]))]);
}

fn written(letter: char, is_move: bool, params: &[&str]) -> WrittenCommand {
    WrittenCommand {
        letter,
        is_move,
        params: params.iter().map(|p| (p.to_string(), !p.starts_with('-'))).collect(),
    }
}

#[test]
fn path_commands_are_written_with_letters_and_spaces() {
    let cmds = vec![
        written('M', true, &["10", "20"]),
        written('L', false, &["30", "40"]),
        written('L', false, &["50", "-60"]),
        written('z', false, &[]),
    ];
    assert_eq!(write_path(&cmds, false), "M10 20 L30 40 50-60z");
    assert_eq!(write_path(&cmds, true), "M10 20 L30 40 50 -60z");
    let moves = vec![written('M', true, &["1", "2"]), written('M', true, &["3", "4"])];
    assert_eq!(write_path(&moves, true), "M1 2 M3 4");
    assert_eq!(write_path(&Vec::new(), true), "");
}
