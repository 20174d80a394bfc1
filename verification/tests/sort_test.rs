use comic_core::sort::{natural_cmp, natural_sort_key, NaturalChunk};
use std::cmp::Ordering;

#[test]
fn test_natural_sort_numeric() {
    let mut names = vec!["page10.jpg", "page2.jpg", "page1.jpg", "page20.jpg"];
    names.sort_by(|a, b| natural_cmp(a, b));
    assert_eq!(
        names,
        ["page1.jpg", "page2.jpg", "page10.jpg", "page20.jpg"]
    );
}

#[test]
fn test_natural_sort_mixed() {
    let mut names = vec!["b.jpg", "a.jpg", "c.jpg"];
    names.sort_by(|a, b| natural_cmp(a, b));
    assert_eq!(names, ["a.jpg", "b.jpg", "c.jpg"]);
}

#[test]
fn test_natural_sort_zero_padded() {
    let mut names = vec!["001.jpg", "010.jpg", "002.jpg"];
    names.sort_by(|a, b| natural_cmp(a, b));
    assert_eq!(names, ["001.jpg", "002.jpg", "010.jpg"]);
}

#[test]
fn key_splits_digit_runs() {
    assert_eq!(
        natural_sort_key("Page007b.JPG"),
        vec![
            NaturalChunk::Text("page".to_string()),
            NaturalChunk::Num(7),
            NaturalChunk::Text("b.jpg".to_string()),
        ]
    );
    assert_eq!(natural_sort_key(""), Vec::<NaturalChunk>::new());
    assert_eq!(natural_sort_key("42"), vec![NaturalChunk::Num(42)]);
}

#[test]
fn key_of_overlong_number_is_zero() {
    // 20 digits do not fit in a u64: the run counts as 0.
    assert_eq!(
        natural_sort_key("x99999999999999999999"),
        vec![NaturalChunk::Text("x".to_string()), NaturalChunk::Num(0)]
    );
    assert_eq!(
        natural_sort_key("18446744073709551615"),
        vec![NaturalChunk::Num(u64::MAX)]
    );
    assert_eq!(natural_sort_key("18446744073709551616"), vec![NaturalChunk::Num(0)]);
}

#[test]
fn key_lowercases_text() {
    assert_eq!(natural_sort_key("ÄB"), vec![NaturalChunk::Text("äb".to_string())]);
}

#[test]
fn cmp_is_case_insensitive_and_numeric() {
    assert_eq!(natural_cmp("PAGE2.jpg", "page10.jpg"), Ordering::Less);
    assert_eq!(natural_cmp("Page1.jpg", "page1.JPG"), Ordering::Equal);
    assert_eq!(natural_cmp("001.jpg", "1.jpg"), Ordering::Equal);
    // Text sorts before a number.
    assert_eq!(natural_cmp("a", "1"), Ordering::Less);
    // A proper prefix comes first.
    assert_eq!(natural_cmp("page", "page1"), Ordering::Less);
}

#[test]
fn cmp_laws_on_examples() {
    let names = ["b2", "b10", "B2", "a", "10", "9", "x.jpg", ""];
    for a in names {
        assert_eq!(natural_cmp(a, a), Ordering::Equal);
        for b in names {
            assert_eq!(natural_cmp(a, b), natural_cmp(b, a).reverse());
            for c in names {
                if natural_cmp(a, b) == Ordering::Less && natural_cmp(b, c) == Ordering::Less {
                    assert_eq!(natural_cmp(a, c), Ordering::Less);
                }
            }
        }
    }
}

#[test]
fn ascii_text_runs_are_lowered() {
    let key = natural_sort_key("Cover.JPG");
    assert_eq!(key, vec![NaturalChunk::Text("cover.jpg".to_string())]);
}

#[test]
fn ascii_words_sort_alphabetically_without_case() {
    let mut names = vec!["c.jpg", "B.jpg", "a.jpg", "cover.jpg", "page01.png"];
    names.sort_by(|a, b| natural_cmp(a, b));
    assert_eq!(names, ["a.jpg", "B.jpg", "c.jpg", "cover.jpg", "page01.png"]);
}

#[test]
fn digit_run_compares_by_value_between_same_text() {
    assert_eq!(natural_cmp("vol2-p.png", "vol10-p.png"), std::cmp::Ordering::Less);
    assert_eq!(natural_cmp("vol010-p.png", "vol9-p.png"), std::cmp::Ordering::Greater);
}

#[test]
fn non_ascii_text_is_lowered_too() {
    let key = natural_sort_key("ÉTÉ");
    assert_eq!(key, vec![NaturalChunk::Text("été".to_string())]);
}
