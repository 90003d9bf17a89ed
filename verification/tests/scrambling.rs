use flush::scramble_contents;

#[test]
fn scrambled_text_keeps_the_line_shape() {
    let mut rng = rand::rng();
    let contents = "first line\n\nthird one here";
    let out = scramble_contents(&mut rng, contents);
    let original: Vec<&str> = contents.split('\n').collect();
    let scrambled: Vec<&str> = out.split('\n').collect();
    assert_eq!(scrambled.len(), original.len());
    for (o, s) in original.iter().zip(scrambled.iter()) {
        assert_eq!(o.chars().count(), s.chars().count());
    }
}

#[test]
fn scrambled_lines_are_alphanumeric() {
    let mut rng = rand::rng();
    let out = scramble_contents(&mut rng, "some words here\nand more");
    for line in out.split('\n') {
        assert!(line.chars().all(|c| c.is_ascii_alphanumeric()));
    }
}

#[test]
fn scrambling_empty_text_gives_empty_text() {
    let mut rng = rand::rng();
    assert_eq!(scramble_contents(&mut rng, ""), "");
}

#[test]
fn scrambled_text_has_the_original_length() {
    let mut rng = rand::rng();
    let contents = "abc\ndefg\nhi";
    let out = scramble_contents(&mut rng, contents);
    assert_eq!(out.chars().count(), contents.chars().count());
}
