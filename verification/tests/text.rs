use lib::advanced_modules::{greet, hello_fn, sibling_value, Reexported};
use lib::advanced_traits::{exclaim, shout, Animal, Bucket, Cat, Container, Dog, Robot};
use lib::basics::{append_world, calculate_length};
use lib::collections::words;
use lib::generics_traits::{Article, Summary, Tweet};
use lib::lifetimes::{first_piece, longest, Excerpt};
use lib::modules_demo::hello;
use lib::std_text::is_whitespace;

#[test]
fn hello_greets_by_name() {
    assert_eq!(hello("Rustacean"), "Hello, Rustacean!");
    assert_eq!(hello(""), "Hello, !");
}

#[test]
fn greet_reports_the_sibling_value() {
    assert_eq!(sibling_value(), 99);
    assert_eq!(greet(), "deep says hi, sibling value = 99");
    assert_eq!(hello_fn(), greet());
    assert_eq!(Reexported::hello(), "re-exported item");
}

#[test]
fn length_counts_bytes() {
    assert_eq!(calculate_length(&String::from("borrow me")), 9);
    assert_eq!(calculate_length(&String::from("é")), 2);
    assert_eq!(calculate_length(&String::new()), 0);
}

#[test]
fn append_world_extends_the_string() {
    let mut s = String::from("hello");
    append_world(&mut s);
    assert_eq!(s, "hello world");
}

#[test]
fn longest_prefers_more_bytes_and_the_second_on_ties() {
    assert_eq!(longest("long string is long", "short"), "long string is long");
    assert_eq!(longest("ab", "cd"), "cd");
    assert_eq!(longest("é", "ab"), "ab");
    assert_eq!(longest("éé", "abc"), "éé");
}

#[test]
fn first_piece_stops_at_the_separator() {
    assert_eq!(first_piece("Call me Ishmael. Some years ago...", '.'), "Call me Ishmael");
    assert_eq!(first_piece("no separator", '.'), "no separator");
    assert_eq!(first_piece(".leading", '.'), "");
    assert_eq!(first_piece("", '.'), "");
    assert_eq!(first_piece("héllo.wörld", '.'), "héllo");
    for s in ["a.b.c", "...", "x", "ü.ß"] {
        assert_eq!(first_piece(s, '.'), s.split('.').next().unwrap());
    }
}

#[test]
fn excerpt_gives_back_its_part() {
    let novel = String::from("Call me Ishmael. Some years ago...");
    let excerpt = Excerpt { part: first_piece(&novel, '.') };
    assert_eq!(excerpt.part(), "Call me Ishmael");
}

#[test]
fn words_split_at_whitespace() {
    assert_eq!(words("the quick brown fox"), vec!["the", "quick", "brown", "fox"]);
    assert_eq!(words("  lead\tand\ntrail  "), vec!["lead", "and", "trail"]);
    assert_eq!(words(""), Vec::<String>::new());
    assert_eq!(words(" \u{3000}\u{a0} "), Vec::<String>::new());
    assert_eq!(words("a\u{2003}b\u{85}c"), vec!["a", "b", "c"]);
}

#[test]
fn words_agree_with_split_whitespace() {
    for s in ["one", " x  y ", "\u{200b}zero\u{200b}width", "tab\tsep\u{b}vt\u{c}ff\rcr", "ü ß é"] {
        let expected: Vec<String> = s.split_whitespace().map(|w| w.to_string()).collect();
        assert_eq!(words(s), expected);
    }
}

#[test]
fn whitespace_matches_std_for_every_char() {
    for u in 0..=0x10FFFFu32 {
        if let Some(c) = char::from_u32(u) {
            assert_eq!(is_whitespace(c), c.is_whitespace(), "U+{:04X}", u);
        }
    }
}

#[test]
fn shout_upper_cases_and_exclaims() {
    assert_eq!(shout("quiet"), "QUIET!!!");
    assert_eq!(shout("42"), "42!!!");
    assert_eq!(shout("straße"), "STRASSE!!!");
    assert_eq!(exclaim(String::from("HI")), "HI!!!");
}

#[test]
fn animals_speak() {
    assert_eq!(Dog.speak(), "Woof");
    assert_eq!(Cat.speak(), "Meow");
}

#[test]
fn robot_name_length_in_bytes() {
    assert_eq!(Robot(String::from("R2D2")).name_len(), 4);
    assert_eq!(Robot(String::from("Ünïcode")).name_len(), 9);
}

#[test]
fn bucket_get_by_position() {
    let bucket = Bucket { items: vec![1, 2, 3] };
    assert_eq!(bucket.get(1), Some(&2));
    assert_eq!(bucket.get(3), None);
}

#[test]
fn article_summary_shows_ten_bytes() {
    let article = Article { title: "Rust 2.0".into(), body: "Big changes are coming".into() };
    assert_eq!(article.summarize(), "Rust 2.0: Big change...");
    let short = Article { title: "T".into(), body: "abc".into() };
    assert_eq!(short.summarize(), "T: abc...");
    let accented = Article { title: "T".into(), body: "ééééé€".into() };
    assert_eq!(accented.summarize(), "T: ééééé...");
}

#[test]
fn tweet_summary_is_the_default() {
    let tweet = Tweet { user: "rustlang".into() };
    assert_eq!(tweet.summarize(), "(no summary available)");
}
