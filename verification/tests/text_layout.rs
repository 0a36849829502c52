use reddit_tui::helpers::{
    browser_shell_command, download_status, history_file_path, history_from_text, media_target,
    viewer_command, wrap_words, wrapped_lines, ViewMediaError, ViewMediaMode,
};
use reddit_tui::model::Post;
use reddit_tui::text::{decimal, trim_str};

#[test]
fn wrapped_lines_counts_rows() {
    assert_eq!(wrapped_lines("", 10), 1);
    assert_eq!(wrapped_lines("hello", 0), 1);
    assert_eq!(wrapped_lines("hello", 10), 1);
    assert_eq!(wrapped_lines("hello world", 5), 3);
    assert_eq!(wrapped_lines("a\n\nb", 10), 3);
    assert_eq!(wrapped_lines("abc\r\n", 3), 1);
    assert_eq!(wrapped_lines("abcd\nabcdefgh", 4), 3);
    // characters, not bytes
    assert_eq!(wrapped_lines("ééé", 3), 1);
}

#[test]
fn wrap_words_breaks_between_words() {
    assert_eq!(wrap_words("the quick brown fox", 9), vec!["the quick", "brown fox"]);
    assert_eq!(wrap_words("abcdefghij", 4), vec!["abcd", "efgh", "ij"]);
    assert_eq!(wrap_words("hi abcdefghij x", 4), vec!["hi", "abcd", "efgh", "ij", "x"]);
    assert_eq!(wrap_words("a\n\nb", 5), vec!["a", "", "b"]);
    assert_eq!(wrap_words("", 5), vec![""]);
    assert_eq!(wrap_words("   ", 5), vec![""]);
    assert_eq!(wrap_words("keep whole", 0), vec!["keep whole"]);
    assert_eq!(wrap_words("a  b\tc", 10), vec!["a b c"]);
}

#[test]
fn wrap_words_lines_fit_the_width() {
    let text = "Lorem ipsum dolor sit amet, consectetur adipiscing elit, sed do eiusmod tempor\n\nincididunt ut labore et dolore magna aliqua supercalifragilisticexpialidocious";
    for width in 1..30 {
        for line in wrap_words(text, width) {
            assert!(line.chars().count() <= width, "{:?} at {}", line, width);
        }
    }
}

#[test]
fn history_text_is_trimmed_without_blank_lines() {
    let h = history_from_text("home\nsearch cats\ngoto rust\n");
    assert_eq!(h, vec!["home", "search cats", "goto rust"]);
    let h = history_from_text("  home  \r\n\n \t \ngoto x");
    assert_eq!(h, vec!["home", "goto x"]);
    assert!(history_from_text("").is_empty());
}

#[test]
fn history_location_follows_environment() {
    let l = history_file_path(Some("/cfg".to_string()), Some("/home/u".to_string()));
    assert_eq!(l.dir.as_deref(), Some("/cfg/reddit_tui"));
    assert_eq!(l.file, "/cfg/reddit_tui/history");
    let l = history_file_path(Some("/cfg/".to_string()), None);
    assert_eq!(l.file, "/cfg/reddit_tui/history");
    let l = history_file_path(None, Some("/home/u".to_string()));
    assert_eq!(l.dir.as_deref(), Some("/home/u/.config/reddit_tui"));
    assert_eq!(l.file, "/home/u/.config/reddit_tui/history");
    let l = history_file_path(None, None);
    assert_eq!(l.dir, None);
    assert_eq!(l.file, "commands.log");
    let l = history_file_path(Some(String::new()), None);
    assert_eq!(l.file, "reddit_tui/history");
}

#[test]
fn decimal_and_trim() {
    assert_eq!(decimal(0), "0");
    assert_eq!(decimal(1234567890123), "1234567890123");
    assert_eq!(decimal(u64::MAX), u64::MAX.to_string());
    assert_eq!(trim_str("\u{3000} a b \u{85}"), "a b");
    assert_eq!(trim_str("x"), "x");
}

fn post_with_media(media: Option<&str>) -> Post {
    Post {
        author: String::new(),
        num_comments: 0,
        media_url: media.map(|s| s.to_string()),
        selftext: None,
        perma_link: "/r/pics/comments/1/x/".to_string(),
        subreddit: String::new(),
        title: String::new(),
        score: 0,
        upvote_ratio_bits: 0,
        creation_time: 0,
    }
}

#[test]
fn media_plans() {
    match media_target(&post_with_media(None)) {
        Err(ViewMediaError::PostWithoutMedia) => {}
        _ => panic!(),
    }
    let t = media_target(&post_with_media(Some("https://i.example/p.png"))).unwrap();
    assert_eq!(t.url, "https://i.example/p.png");
    assert!(t.file.starts_with("/tmp/reddit_tui/reddit_media_"));
    let t2 = media_target(&post_with_media(Some("https://other"))).unwrap();
    assert_eq!(t.file, t2.file);
    assert!(download_status(200).is_ok());
    match download_status(500) {
        Err(ViewMediaError::DownloadFailure(s)) => assert_eq!(s, "HTTP status 500"),
        _ => panic!(),
    }
    let c = viewer_command(ViewMediaMode::Default, "/tmp/f");
    assert_eq!(c.program, "xdg-open");
    assert_eq!(c.args, vec!["/tmp/f"]);
    let c = viewer_command(ViewMediaMode::Caca, "/tmp/f");
    assert_eq!(c.program, "sh");
    assert_eq!(c.args, vec!["-c", "x-terminal-emulator -e cacaview /tmp/f >/dev/null 2>&1 &"]);
    assert_eq!(
        ViewMediaError::DownloadFailure("x".to_string()).message(),
        "The post media could not be downloaded: x"
    );
    assert_eq!(ViewMediaError::PostWithoutMedia.message(), "Post does not contain media to view");
    assert_eq!(ViewMediaError::UnsupportedOS.message(), "Your OS is not supported for viewing media");
}

#[test]
fn browser_command_line() {
    assert_eq!(
        browser_shell_command("https://r.com/x"),
        "nohup xdg-open 'https://r.com/x' >/dev/null 2>&1 &"
    );
    // quotes and shell syntax in the address stay inside the quoted word
    assert_eq!(
        browser_shell_command("a\"; touch x; \"b'c"),
        "nohup xdg-open 'a\"; touch x; \"b'\\''c' >/dev/null 2>&1 &"
    );
}

#[test]
fn wrap_words_keeps_every_visible_character() {
    let text = "Lorem ipsum dolor\tsit amet,  consectetur\n\nadipiscing supercalifragilisticexpialidocious end";
    let visible: String = text.chars().filter(|c| !c.is_whitespace()).collect();
    for width in 0..25 {
        let joined: String = wrap_words(text, width).concat();
        let kept: String = joined.chars().filter(|c| !c.is_whitespace()).collect();
        assert_eq!(kept, visible, "at width {}", width);
    }
}

#[test]
fn logged_command_is_read_back_last() {
    for before in ["", "home\n", "  search cats \n\ngoto rust\r\n"] {
        let old = history_from_text(before);
        let text = format!("{}{}\n", before, "goto r/rust");
        let mut want = old.clone();
        want.push("goto r/rust".to_string());
        assert_eq!(history_from_text(&text), want);
    }
}

#[test]
fn wider_width_needs_no_more_rows() {
    let text = "Lorem ipsum dolor sit amet\n\nconsectetur adipiscing elit, sed do eiusmod\r\ntempor";
    let mut prev = wrapped_lines(text, 1);
    assert!(prev >= 1);
    for width in 2..80u16 {
        let rows = wrapped_lines(text, width);
        assert!(rows >= 1 && rows <= prev, "width {}", width);
        prev = rows;
    }
    assert_eq!(wrapped_lines(text, 100), 4);
}

#[test]
fn wrapped_lines_hold_no_newline() {
    let text = "one\ntwo three\n\nfour five six seven\r\neight";
    for width in 1..12 {
        for line in wrap_words(text, width) {
            assert!(!line.contains('\n'), "{:?} at {}", line, width);
        }
    }
}
