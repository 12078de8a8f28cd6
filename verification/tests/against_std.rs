use runcher::load_order::sort_texts;
use runcher::map_pack::parse_i32;
use runcher::paths::{file_name_of, parent_of, path_is_inside};
use runcher::secondary::change_extension;
use runcher::text::{decimal_text, ends_with, replace_char, starts_with, text_contains, text_le};
use std::path::{Path, PathBuf};

struct Source(u64);

impl Source {
    fn next(&mut self) -> u64 {
        self.0 = self.0.wrapping_mul(6364136223846793005).wrapping_add(1442695040888963407);
        self.0 >> 33
    }

    fn text(&mut self, alphabet: &[char], longest: u64) -> String {
        let length = self.next() % (longest + 1);
        (0..length).map(|_| alphabet[(self.next() % alphabet.len() as u64) as usize]).collect()
    }
}

const LETTERS: [char; 8] = ['a', 'b', 'B', '_', ' ', 'é', '😀', '\u{FFFF}'];
const PATH_LETTERS: [char; 5] = ['a', 'b', '.', '/', 'c'];

#[test]
fn order_of_texts_is_that_of_the_language() {
    let mut source = Source(1);
    for _ in 0..2000 {
        let a = source.text(&LETTERS, 5);
        let b = source.text(&LETTERS, 5);
        assert_eq!(text_le(&a, &b), a <= b, "{a:?} {b:?}");
        assert_eq!(starts_with(&a, &b), a.starts_with(&b), "{a:?} {b:?}");
        assert_eq!(ends_with(&a, &b), a.ends_with(&b), "{a:?} {b:?}");
        assert_eq!(text_contains(&a, &b), a.contains(&b), "{a:?} {b:?}");
        assert_eq!(replace_char(&a, ' ', '_'), a.replace(' ', "_"));
    }
    for _ in 0..200 {
        let texts: Vec<String> = (0..source.next() % 9).map(|_| source.text(&LETTERS, 3)).collect();
        let mut expected = texts.clone();
        expected.sort();
        assert_eq!(sort_texts(&texts), expected);
    }
}

#[test]
fn numbers_are_written_and_read_as_the_language_does() {
    let mut source = Source(2);
    for _ in 0..2000 {
        let n = source.next() << (source.next() % 32);
        assert_eq!(decimal_text(n), n.to_string());
        let digits = ['0', '1', '9', '-', '+', '2', '4', '7', 'x'];
        let text = source.text(&digits, 12);
        assert_eq!(parse_i32(&text), text.parse::<i32>().ok(), "{text:?}");
    }
}

fn clean(path: &str) -> bool {
    !path.contains("//")
        && !path.ends_with('/')
        && !path.split('/').any(|part| part == "." || part == "..")
}

#[test]
fn paths_are_cut_as_the_language_cuts_them() {
    let mut source = Source(3);
    let mut seen = 0;
    while seen < 2000 {
        let path = format!("/a/{}", source.text(&PATH_LETTERS, 8));
        let base = format!("/a/{}", source.text(&PATH_LETTERS, 4));
        if !clean(&path) || !clean(&base) {
            continue;
        }
        seen += 1;
        let expected_name = Path::new(&path).file_name().unwrap().to_string_lossy().to_string();
        assert_eq!(file_name_of(&path), expected_name, "{path:?}");
        let expected_parent = Path::new(&path).parent().unwrap().to_string_lossy().to_string();
        assert_eq!(parent_of(&path), expected_parent, "{path:?}");
        assert_eq!(
            path_is_inside(&path, &base),
            Path::new(&path).starts_with(&base),
            "{path:?} {base:?}"
        );
        let mut changed = PathBuf::from(&path);
        changed.set_extension("png");
        assert_eq!(change_extension(&path, "png"), changed.to_string_lossy(), "{path:?}");
    }
}
