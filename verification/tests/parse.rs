use shinra::script::parse;

#[test]
fn reads_say_lines_and_assigns_slots_in_first_appearance_order() {
    let s = parse(b"show jessie\nsay jessie \"hi\"\nsay barret \"go\"\nsay jessie \"no\"\n");
    assert_eq!(s.len(), 3);
    assert_eq!(s.says[0].speaker, 0);
    assert_eq!(s.says[1].speaker, 1);
    assert_eq!(s.says[2].speaker, 0);
    assert_eq!(s.cast, 2);
}

#[test]
fn comments_blanks_and_unknown_keywords_are_skipped_not_fatal() {
    let s = parse(b"# note\n\nwiggle foo\nlabel start\nsay a \"x\"\n");
    assert_eq!(s.len(), 1);
    assert_eq!(s.says[0].text, "x");
}

#[test]
fn a_malformed_say_is_dropped_rather_than_guessed() {
    assert_eq!(parse(b"say jessie\nsay \"orphan\"\n").len(), 0);
}

#[test]
fn line_wraps_so_an_act_loops() {
    let s = parse(b"say a \"one\"\nsay a \"two\"\n");
    assert_eq!(s.line(0).unwrap().text, "one");
    assert_eq!(s.line(3).unwrap().text, "two");
}

#[test]
fn an_empty_act_has_no_cast_and_no_lines() {
    let s = parse(b"");
    assert_eq!(s.len(), 0);
    assert_eq!(s.cast, 0);
    assert!(s.line(0).is_none());
}

#[test]
fn whitespace_around_a_line_and_inside_quotes() {
    let s = parse(b"  say   ann   \"  hello there \"  \r\nsay ann \"\"\n");
    assert_eq!(s.len(), 1);
    assert_eq!(s.says[0].text, "  hello there ");
    assert_eq!(s.says[0].speaker, 0);
    assert_eq!(s.cast, 1);
}

#[test]
fn show_and_hide_claim_slots_without_lines() {
    let s = parse(b"show a\nhide b\nsay c \"x\"\nsay b \"y\"\n");
    assert_eq!(s.len(), 2);
    assert_eq!(s.says[0].speaker, 2);
    assert_eq!(s.says[1].speaker, 1);
    assert_eq!(s.cast, 3);
}

#[test]
fn invalid_utf8_ends_the_act() {
    let s = parse(b"say a \"one\"\n\xff\nsay a \"two\"\n");
    assert_eq!(s.len(), 1);
    assert_eq!(s.says[0].text, "one");
}

#[test]
fn a_say_with_empty_quotes_is_dropped_and_takes_no_slot() {
    let s = parse(b"say ghost \"\"\nsay ann \"hi\"\n");
    assert_eq!(s.len(), 1);
    assert_eq!(s.says[0].text, "hi");
    assert_eq!(s.says[0].speaker, 0);
    assert_eq!(s.cast, 1);
    assert!(s.says.iter().all(|l| !l.text.is_empty()));
}

#[test]
fn an_act_that_only_comments_names_no_actor() {
    let s = parse(b"# nothing
label start
");
    assert_eq!(s.cast, 0);
    let s = parse(b"show a
");
    assert_eq!(s.cast, 1);
    assert_eq!(s.len(), 0);
}

#[test]
fn skipped_lines_change_nothing_wherever_they_stand() {
    let base = parse(b"say a \"one\"\nsay b \"two\"\n");
    for src in [
        &b"# c\nsay a \"one\"\nsay b \"two\"\n"[..],
        &b"say a \"one\"\nwiggle foo\nsay b \"two\"\n"[..],
        &b"say a \"one\"\nsay b \"two\"\n   \n"[..],
        &b"say a \"one\"\njump x\nscene y\nsay b \"two\"\n"[..],
    ] {
        let s = parse(src);
        assert_eq!(s.cast, base.cast);
        let lines: Vec<(u32, &str)> = s.says.iter().map(|l| (l.speaker, l.text.as_str())).collect();
        assert_eq!(lines, vec![(0, "one"), (1, "two")]);
        assert_eq!(s.len(), base.len());
    }
}

#[test]
fn a_file_reads_as_its_valid_prefix() {
    let whole = b"say a \"one\"\nsay b \"t\xffwo\"\n";
    let valid = std::str::from_utf8(whole).unwrap_err().valid_up_to();
    let a = parse(whole);
    let b = parse(&whole[..valid]);
    assert_eq!(a.cast, b.cast);
    assert_eq!(a.len(), b.len());
    assert_eq!(a.says[0].text, b.says[0].text);
    assert_eq!(a.len(), 1);
}

#[test]
fn skipped_lines_change_nothing_before_an_invalid_byte() {
    let src: &[u8] = b"say a \"one\"\nsay b \"two\"\n\xffsay c \"three\"\n";
    let base = parse(src);
    for j in [0usize, 12, 24] {
        let mut with = src[..j].to_vec();
        with.extend_from_slice(b"wiggle foo\n");
        with.extend_from_slice(&src[j..]);
        let s = parse(&with);
        assert_eq!(s.cast, base.cast);
        let a: Vec<(u32, &str)> = s.says.iter().map(|l| (l.speaker, l.text.as_str())).collect();
        let b: Vec<(u32, &str)> = base.says.iter().map(|l| (l.speaker, l.text.as_str())).collect();
        assert_eq!(a, b);
        assert_eq!(a, vec![(0, "one"), (1, "two")]);
    }
}
