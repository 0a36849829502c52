use reddit_tui::app::FocusItem;
use reddit_tui::model::Post;
use reddit_tui::pane::View;
use reddit_tui::render::{
    command_bar, comment_row_text, comments_loading_popup, flash_popup, focus_layout,
    focus_layout_ok, list_pane_percent, post_body_text, post_list_text, posts_loading_popup,
    status_text, Rect,
};

fn post(selftext: Option<&str>, media: Option<&str>) -> Post {
    Post {
        author: String::new(),
        num_comments: 4,
        media_url: media.map(|s| s.to_string()),
        selftext: selftext.map(|s| s.to_string()),
        perma_link: String::new(),
        subreddit: "rust".to_string(),
        title: "Title".to_string(),
        score: 12,
        upvote_ratio_bits: 0,
        creation_time: 0,
    }
}

#[test]
fn list_rows_and_status() {
    assert_eq!(list_pane_percent(View::List), 65);
    assert_eq!(list_pane_percent(View::Focus), 35);
    assert_eq!(post_list_text(&post(None, None)), "Title\n↑ 12 ↓   • 4 comments  • /r/rust");
    let msgs: Vec<String> = (0..12).map(|i| format!("m{}", i)).collect();
    assert_eq!(status_text(&msgs), "m11\nm10\nm9\nm8\nm7\nm6\nm5\nm4\nm3\nm2");
    assert_eq!(status_text(&vec!["a".to_string(), "b".to_string()]), "b\na");
    assert_eq!(status_text(&vec![]), "");
}

#[test]
fn body_composition() {
    assert_eq!(post_body_text(&post(None, None)), "(no body)");
    assert_eq!(post_body_text(&post(Some(""), None)), "(no body)");
    assert_eq!(post_body_text(&post(Some("hi"), None)), "hi\n");
    assert_eq!(post_body_text(&post(Some("hi"), Some("u"))), "hi\nMedia: u");
    assert_eq!(post_body_text(&post(None, Some("u"))), "Media: u");
}

#[test]
fn comment_rows() {
    let it = FocusItem {
        body: "hello big world".to_string(),
        author: "ann".to_string(),
        score: 3,
        path: "0.1".to_string(),
        depth: 1,
        has_children: true,
    };
    assert_eq!(
        comment_row_text(&it, false, 16),
        "  [+] hello big\n      world\n    by ann  • ↑ 3 ↓"
    );
    assert!(comment_row_text(&it, true, 100).starts_with("  [-] hello big world\n"));
    let leaf = FocusItem { has_children: false, depth: 0, ..it };
    assert!(comment_row_text(&leaf, true, 2).starts_with("[/] h\n    e\n"));
}

#[test]
fn focus_heights() {
    let right = Rect { x: 0, y: 0, width: 42, height: 30 };
    assert!(focus_layout_ok("Short title", right));
    assert_eq!(focus_layout("Short title", "body", right), (3, 5));
    let long_body = "x".repeat(400);
    assert_eq!(focus_layout("Short title", &long_body, right), (3, 12));
    let tiny = Rect { x: 0, y: 0, width: 42, height: 7 };
    assert!(!focus_layout_ok("Short title", tiny));
}

#[test]
fn popups() {
    let area = Rect { x: 0, y: 0, width: 100, height: 40 };
    assert_eq!(posts_loading_popup(area), Rect { x: 25, y: 19, width: 50, height: 3 });
    assert_eq!(comments_loading_popup(area), Rect { x: 30, y: 19, width: 40, height: 3 });
    assert_eq!(flash_popup(area), Rect { x: 25, y: 16, width: 50, height: 3 });
    let bar = command_bar(area);
    assert_eq!(bar.area, Rect { x: 10, y: 35, width: 80, height: 4 });
    assert_eq!(bar.input, Rect { x: 10, y: 35, width: 80, height: 3 });
    assert_eq!(bar.help, Rect { x: 19, y: 38, width: 62, height: 1 });
    let narrow = Rect { x: 0, y: 0, width: 15, height: 3 };
    let bar = command_bar(narrow);
    assert_eq!(bar.input.width, 15);
    assert_eq!(bar.input.y, 0);
}
