use imgren::dialog::{
    format_from_arguments, is_confirmed, is_yes, requested_directory, FormatDialog, Notice, Prompt,
    Stage,
};

fn run(dialog: &mut FormatDialog, answers: &[&str], today: &str) -> Vec<(Vec<Notice>, Prompt)> {
    let mut out = Vec::new();
    for a in answers {
        let r = dialog.answer_with_date(a, today);
        out.push((r.notices, r.prompt));
    }
    out
}

#[test]
fn empty_choice_means_number_only() {
    let mut d = FormatDialog::new(3);
    let replies = run(&mut d, &["\n", "\n"], "20240308");
    assert!(matches!(replies[0].0.as_slice(), [Notice::NumberOnlyChosen]));
    assert!(matches!(replies[0].1, Prompt::Digits));
    assert!(matches!(replies[1].0.as_slice(), [Notice::DigitsChosen(3)]));
    assert!(matches!(replies[1].1, Prompt::Done));
    assert!(matches!(d.stage, Stage::Finished));
    assert_eq!(d.config.pattern, "NumberOnly");
    assert_eq!(d.config.prefix, "");
    assert_eq!(d.config.digits, 3);
    assert!(!d.config.custom_format);
}

#[test]
fn prefix_format_with_default_prefix() {
    let mut d = FormatDialog::new(3);
    let replies = run(&mut d, &["2", "  ", "4"], "20240308");
    assert!(matches!(replies[0].1, Prompt::Prefix));
    match replies[1].0.as_slice() {
        [Notice::PrefixChosen(p)] => assert_eq!(p, "IMG"),
        _ => panic!("unexpected notices"),
    }
    assert!(matches!(replies[2].0.as_slice(), [Notice::DigitsChosen(4)]));
    assert_eq!(d.config.pattern, "PrefixNumber");
    assert_eq!(d.config.prefix, "IMG");
    assert_eq!(d.config.digits, 4);
}

#[test]
fn date_format_defaults_to_today() {
    let mut d = FormatDialog::new(3);
    let replies = run(&mut d, &[" 3 ", ""], "20240308");
    match &replies[0].1 {
        Prompt::Date(t) => assert_eq!(t, "20240308"),
        _ => panic!("expected the date question"),
    }
    assert_eq!(d.config.pattern, "DateNumber");
    assert_eq!(d.config.prefix, "20240308");
    let mut e = FormatDialog::new(3);
    run(&mut e, &["3", "20001231"], "20240308");
    assert_eq!(e.config.prefix, "20001231");
}

#[test]
fn date_format_through_the_clock() {
    let mut d = FormatDialog::new(3);
    let r = d.answer("3");
    let today = chrono::Local::now().format("%Y%m%d").to_string();
    match r.prompt {
        Prompt::Date(t) => assert_eq!(t, today),
        _ => panic!("expected the date question"),
    }
    d.answer("");
    assert_eq!(d.config.prefix, today);
}

#[test]
fn name_format_defaults_to_photo() {
    let mut d = FormatDialog::new(3);
    run(&mut d, &["4", "", ""], "x");
    assert_eq!(d.config.pattern, "OriginalNumber");
    assert_eq!(d.config.prefix, "照片");
    let mut e = FormatDialog::new(3);
    run(&mut e, &["4", " 旅行 ", ""], "x");
    assert_eq!(e.config.prefix, "旅行");
}

#[test]
fn custom_format_with_prefix_value() {
    let mut d = FormatDialog::new(3);
    let replies = run(&mut d, &["5", " 旅行{P}_{N} ", "trip", "2"], "x");
    assert!(matches!(replies[0].1, Prompt::Custom));
    assert!(replies[1].0.is_empty());
    assert!(matches!(replies[1].1, Prompt::CustomPrefix));
    match replies[2].0.as_slice() {
        [Notice::CustomChosen(p)] => assert_eq!(p, "旅行{P}_{N}"),
        _ => panic!("unexpected notices"),
    }
    assert_eq!(d.config.pattern, "旅行{P}_{N}");
    assert_eq!(d.config.prefix, "trip");
    assert!(d.config.custom_format);
    assert_eq!(d.config.digits, 2);
}

#[test]
fn custom_format_without_prefix() {
    let mut d = FormatDialog::new(3);
    let replies = run(&mut d, &["5", "旅行{D}_{N}", ""], "x");
    match replies[1].0.as_slice() {
        [Notice::CustomChosen(p)] => assert_eq!(p, "旅行{D}_{N}"),
        _ => panic!("unexpected notices"),
    }
    assert!(matches!(replies[1].1, Prompt::Digits));
    assert_eq!(d.config.prefix, "");
}

#[test]
fn empty_custom_format_falls_back() {
    let mut d = FormatDialog::new(3);
    let replies = run(&mut d, &["5", "   ", "6"], "x");
    assert!(matches!(replies[1].0.as_slice(), [Notice::EmptyCustom]));
    assert_eq!(d.config.pattern, "NumberOnly");
    assert!(!d.config.custom_format);
    assert_eq!(d.config.digits, 6);
}

#[test]
fn invalid_choice_falls_back() {
    let mut d = FormatDialog::new(5);
    let replies = run(&mut d, &["9", ""], "x");
    assert!(matches!(replies[0].0.as_slice(), [Notice::InvalidChoice]));
    assert_eq!(d.config.pattern, "NumberOnly");
    assert!(matches!(replies[1].0.as_slice(), [Notice::DigitsChosen(5)]));
}

#[test]
fn digits_out_of_range_keep_default() {
    let mut d = FormatDialog::new(3);
    let replies = run(&mut d, &["1", "7"], "x");
    assert!(matches!(replies[1].0.as_slice(), [Notice::DigitsOutOfRange, Notice::DigitsChosen(3)]));
    assert_eq!(d.config.digits, 3);
    let mut e = FormatDialog::new(3);
    let r = run(&mut e, &["1", "1"], "x");
    assert!(matches!(r[1].0.as_slice(), [Notice::DigitsOutOfRange, Notice::DigitsChosen(3)]));
}

#[test]
fn digits_invalid_keep_default() {
    let mut d = FormatDialog::new(4);
    let replies = run(&mut d, &["1", "abc"], "x");
    assert!(matches!(replies[1].0.as_slice(), [Notice::DigitsInvalid, Notice::DigitsChosen(4)]));
    assert_eq!(d.config.digits, 4);
}

#[test]
fn digits_at_the_bounds_are_taken() {
    for (answer, width) in [("2", 2usize), (" 6 ", 6), ("+5", 5)] {
        let mut d = FormatDialog::new(3);
        run(&mut d, &["1", answer], "x");
        assert_eq!(d.config.digits, width);
    }
}

#[test]
fn command_line_formats() {
    let c = format_from_arguments(Some("1"), Some("X"), 4).unwrap();
    assert_eq!(c.pattern, "NumberOnly");
    assert_eq!(c.prefix, "");
    assert_eq!(c.digits, 4);
    let p = format_from_arguments(Some("2"), None, 3).unwrap();
    assert_eq!(p.pattern, "PrefixNumber");
    assert_eq!(p.prefix, "IMG");
    let q = format_from_arguments(Some("2"), Some("trip"), 3).unwrap();
    assert_eq!(q.prefix, "trip");
    assert!(format_from_arguments(Some("3"), None, 3).is_none());
    assert!(format_from_arguments(Some(" 1"), None, 3).is_none());
    assert!(format_from_arguments(None, Some("x"), 3).is_none());
}

#[test]
fn folder_input_defaults_to_current() {
    assert_eq!(requested_directory("  \n"), ".");
    assert_eq!(requested_directory(" C:\\photos \r\n"), "C:\\photos");
}

#[test]
fn confirmation_accepts_y_only() {
    assert!(is_confirmed("y\n"));
    assert!(is_confirmed(" Y \r\n"));
    assert!(!is_confirmed("yes"));
    assert!(!is_confirmed("n"));
    assert!(!is_confirmed(""));
    assert!(is_yes("y"));
    assert!(!is_yes("Y"));
}

#[test]
fn finished_dialog_stays_finished() {
    let mut d = FormatDialog::new(3);
    run(&mut d, &["1", "4"], "x");
    let r = d.answer("5");
    assert!(r.notices.is_empty());
    assert!(matches!(r.prompt, Prompt::Done));
    assert!(matches!(d.stage, Stage::Finished));
    assert_eq!(d.config.pattern, "NumberOnly");
    assert_eq!(d.config.digits, 4);
}
