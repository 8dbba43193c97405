use scripture_wallpaper::wrap::wrap_text;

fn uniform(text: &str, width: i64) -> (Vec<i64>, Vec<i64>) {
    let n = text.chars().count();
    (vec![width; n], vec![0; n])
}

#[test]
fn wrap_breaks_at_space_and_drops_it() {
    let (adv, kern) = uniform("ab cd", 10);
    let lines = wrap_text("ab cd", 25, &adv, &kern);
    assert_eq!(lines, vec!["ab".to_string(), "cd".to_string()]);
}

#[test]
fn wrap_breaks_between_cjk_characters() {
    let (adv, kern) = uniform("天地人和", 10);
    let lines = wrap_text("天地人和", 20, &adv, &kern);
    assert_eq!(lines, vec!["天地".to_string(), "人和".to_string()]);
}

#[test]
fn wrap_keeps_fitting_text_on_one_line() {
    let (adv, kern) = uniform("hello world", 10);
    let lines = wrap_text("hello world", 110, &adv, &kern);
    assert_eq!(lines, vec!["hello world".to_string()]);
}

#[test]
fn wrap_empty_text_gives_one_empty_line() {
    let lines = wrap_text("", 100, &vec![], &vec![]);
    assert_eq!(lines, vec![String::new()]);
}

#[test]
fn wrap_overwide_character_stands_alone() {
    let lines = wrap_text("xy", 10, &vec![100, 100], &vec![0, 0]);
    assert_eq!(lines, vec!["x".to_string(), "y".to_string()]);
}

#[test]
fn wrap_applies_kerning_only_within_a_line() {
    // "AV" is 20 + 20 - 5 = 35 wide with kerning; it fits 35 exactly.
    let lines = wrap_text("AV", 35, &vec![20, 20], &vec![0, -5]);
    assert_eq!(lines, vec!["AV".to_string()]);
    // Without the kerning the pair would be 40 wide and break.
    let lines = wrap_text("AV", 35, &vec![20, 20], &vec![0, 0]);
    assert_eq!(lines, vec!["A".to_string(), "V".to_string()]);
}

#[test]
fn wrap_character_after_a_break_keeps_its_kerned_width() {
    // 'b' breaks the line; its width (10 + 5 kerning against 'a') starts the
    // new line, so 'c' (10) brings it to 25 > 20 and breaks again.
    let lines = wrap_text("abc", 20, &vec![15, 10, 10], &vec![0, 5, 0]);
    assert_eq!(lines, vec!["a".to_string(), "b".to_string(), "c".to_string()]);
}

#[test]
fn wrap_drops_only_spaces_at_breaks() {
    let text = "in the beginning was the word";
    let (adv, kern) = uniform(text, 10);
    let lines = wrap_text(text, 80, &adv, &kern);
    let joined: String = lines.concat();
    let without_spaces: String = text.chars().filter(|c| *c != ' ').collect();
    let joined_without: String = joined.chars().filter(|c| *c != ' ').collect();
    assert_eq!(joined_without, without_spaces);
    for line in &lines {
        assert!(!line.is_empty());
        assert!(line.chars().count() <= 8);
    }
}

#[test]
fn wrap_moves_latin_word_to_next_line() {
    // "bcd" does not fit after "a "; it moves whole and the space is dropped.
    let (adv, kern) = uniform("a bcd", 1);
    let lines = wrap_text("a bcd", 3, &adv, &kern);
    assert_eq!(lines, vec!["a".to_string(), "bcd".to_string()]);
}

#[test]
fn wrap_splits_only_a_word_wider_than_the_line() {
    let (adv, kern) = uniform("abcdef", 1);
    let lines = wrap_text("abcdef", 3, &adv, &kern);
    assert_eq!(lines, vec!["abc".to_string(), "def".to_string()]);
}

#[test]
fn wrap_spaced_words_join_back_to_the_text() {
    let text = "the quick brown fox jumps";
    let (adv, kern) = uniform(text, 10);
    let lines = wrap_text(text, 100, &adv, &kern);
    // Each line took its closing space while it still fitted.
    assert_eq!(
        lines,
        vec!["the quick ".to_string(), "brown fox ".to_string(), "jumps".to_string()]
    );
    let trimmed: Vec<&str> = lines.iter().map(|l| l.strip_suffix(' ').unwrap_or(l)).collect();
    assert_eq!(trimmed.join(" "), text);
}

#[test]
fn wrap_keeps_the_space_that_ends_a_line() {
    let (adv, kern) = uniform("ab  c", 10);
    assert_eq!(
        wrap_text("ab  c", 35, &adv, &kern),
        vec!["ab ".to_string(), "c".to_string()]
    );
    let (adv, kern) = uniform("ab cd", 10);
    assert_eq!(
        wrap_text("ab cd", 35, &adv, &kern),
        vec!["ab ".to_string(), "cd".to_string()]
    );
}

#[test]
fn wrap_breaks_between_cjk_and_a_latin_word() {
    let (adv, kern) = uniform("神爱abc", 1);
    let lines = wrap_text("神爱abc", 4, &adv, &kern);
    assert_eq!(lines, vec!["神爱".to_string(), "abc".to_string()]);
}
