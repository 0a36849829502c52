use reddit_tui::app::{Action, App, Key};
use reddit_tui::fetch::{build_search_url, FetchError};
use reddit_tui::model::{Comment, Post};
use reddit_tui::pane::View;

fn comment(body: &str, author: &str, score: u32, replies: Vec<Comment>) -> Comment {
    Comment {
        body: body.to_string(),
        replies,
        score,
        author: author.to_string(),
        permalink: "".to_string(),
    }
}

fn post(title: &str, perma_link: &str) -> Post {
    Post {
        author: "someone".to_string(),
        num_comments: 3,
        media_url: None,
        selftext: Some("text".to_string()),
        perma_link: perma_link.to_string(),
        subreddit: "rust".to_string(),
        title: title.to_string(),
        score: 10,
        upvote_ratio_bits: 0,
        creation_time: 0,
    }
}

#[test]
fn test_toggle_selected_top_comment() {
    let mut app = App::new();

    let child = Comment {
        body: "child".to_string(),
        replies: vec![],
        score: 1,
        author: "a".to_string(),
        permalink: "".to_string(),
    };
    let parent = Comment {
        body: "parent".to_string(),
        replies: vec![child],
        score: 2,
        author: "b".to_string(),
        permalink: "".to_string(),
    };
    app.comments = vec![parent];

    app.build_focus_items();
    assert!(!app.focus_items.is_empty());
    assert!(app.focus_items[0].has_children);

    app.focus_selected = 0;
    app.toggle_selected();

    assert!(app.is_expanded("0"));
    assert!(app.focus_items.iter().any(|it| it.path.starts_with("0.")));
}

#[test]
fn test_submit_command_variants() {
    let mut app = App::new();

    // home
    app.input = "home".to_string();
    let (quit, target) = app.submit_command();
    assert!(!quit);
    assert_eq!(target, Some("https://www.reddit.com/.json".to_string()));

    // goto bare
    app.input = "goto rust".to_string();
    let (_, target) = app.submit_command();
    assert_eq!(target, Some("https://www.reddit.com/r/rust/.json".to_string()));

    // goto with r/ (still works)
    app.input = "goto r/rust".to_string();
    let (_, target) = app.submit_command();
    assert_eq!(target, Some("https://www.reddit.com/r/rust.json".to_string()));

    // search
    app.input = "search cats".to_string();
    let (_, target) = app.submit_command();
    assert_eq!(target, Some(build_search_url("cats")));

    // legacy r/ syntax is not accepted directly: no target and a notice
    app.input = "r/AskReddit".to_string();
    let (_, target) = app.submit_command();
    assert_eq!(target, None);
    assert!(app.flash_message.is_some());
    assert!(app.flash_ttl > 0);

    // bare subreddit is not accepted directly
    app.input = "programming".to_string();
    let (_, target) = app.submit_command();
    assert_eq!(target, None);
    assert!(app.flash_message.is_some());
    assert!(app.flash_ttl > 0);

    // quit
    app.input = "q".to_string();
    let (quit, target) = app.submit_command();
    assert!(quit);
    assert_eq!(target, None);
}

#[test]
fn submit_command_notices_and_clearing() {
    let mut app = App::new();
    app.command_mode = true;
    app.input = "  goto   ".to_string();
    let (quit, target) = app.submit_command();
    assert!(!quit);
    assert_eq!(target, None);
    assert_eq!(app.flash_message.as_deref(), Some("Usage: goto <subreddit>"));
    assert_eq!(app.flash_ttl, 30);
    assert!(app.input.is_empty());
    assert!(!app.command_mode);

    app.input = "search".to_string();
    let (_, target) = app.submit_command();
    assert_eq!(target, None);
    assert_eq!(app.flash_message.as_deref(), Some("Usage: search <query>"));

    app.input = "nonsense".to_string();
    let (_, target) = app.submit_command();
    assert_eq!(target, None);
    assert_eq!(
        app.flash_message.as_deref(),
        Some("Unknown command. Use 'goto <subreddit>' or 'search <query>'")
    );

    // the argument is trimmed; "home" ignores its argument
    app.input = " goto \t  r/programming  ".to_string();
    let (_, target) = app.submit_command();
    assert_eq!(target, Some("https://www.reddit.com/r/programming.json".to_string()));
    app.input = "/".to_string();
    let (_, target) = app.submit_command();
    assert_eq!(target, Some("https://www.reddit.com/.json".to_string()));
    app.input = "home page".to_string();
    let (_, target) = app.submit_command();
    assert_eq!(target, Some("https://www.reddit.com/.json".to_string()));

    // an empty command just closes the command line
    app.command_mode = true;
    app.input = "   ".to_string();
    let (quit, target) = app.submit_command();
    assert!(!quit && target.is_none());
    assert!(!app.command_mode);

    // quitting leaves the command line as it was
    app.command_mode = true;
    app.input = " q ".to_string();
    let (quit, _) = app.submit_command();
    assert!(quit);
    assert_eq!(app.input, " q ");
    assert!(app.command_mode);
}

#[test]
fn search_url_is_built_from_query() {
    assert_eq!(build_search_url("cats"), "https://www.reddit.com/search/.json?q=(cats)");
    assert_eq!(build_search_url(""), "https://www.reddit.com/search/.json?q=()");
}

#[test]
fn toggle_twice_restores_rows_and_selection() {
    let mut app = App::new();
    let grandchild = comment("deep", "c", 1, vec![]);
    let child = comment("child", "a", 1, vec![grandchild]);
    let parent = comment("parent", "b", 2, vec![child]);
    let other = comment("other", "d", 5, vec![]);
    app.comments = vec![other, parent];
    app.build_focus_items();
    let paths: Vec<String> = app.focus_items.iter().map(|i| i.path.clone()).collect();
    assert_eq!(paths, vec!["0", "1"]);

    app.focus_selected = 1;
    app.toggle_selected();
    let paths: Vec<String> = app.focus_items.iter().map(|i| i.path.clone()).collect();
    assert_eq!(paths, vec!["0", "1", "1.0"]);
    assert_eq!(app.focus_selected, 1);
    assert_eq!(app.focus_items[2].depth, 1);

    // expand the child too
    app.focus_selected = 2;
    app.toggle_selected();
    let paths: Vec<String> = app.focus_items.iter().map(|i| i.path.clone()).collect();
    assert_eq!(paths, vec!["0", "1", "1.0", "1.0.0"]);
    assert_eq!(app.focus_selected, 2);

    // collapse the parent: its replies disappear, it stays selected
    app.focus_selected = 1;
    app.toggle_selected();
    let paths: Vec<String> = app.focus_items.iter().map(|i| i.path.clone()).collect();
    assert_eq!(paths, vec!["0", "1"]);
    assert_eq!(app.focus_selected, 1);
    assert!(!app.is_expanded("1"));
    assert!(app.is_expanded("1.0"));

    // expanding again restores the earlier view
    app.toggle_selected();
    let paths: Vec<String> = app.focus_items.iter().map(|i| i.path.clone()).collect();
    assert_eq!(paths, vec!["0", "1", "1.0", "1.0.0"]);
}

#[test]
fn toggle_leaf_reports_body() {
    let mut app = App::new();
    app.comments = vec![comment("just a leaf", "x", 0, vec![])];
    app.build_focus_items();
    app.focus_selected = 0;
    app.toggle_selected();
    assert_eq!(app.messages, vec!["Comment selected: just a leaf".to_string()]);
    // out of range: nothing happens
    app.focus_selected = 5;
    app.toggle_selected();
    assert_eq!(app.messages.len(), 1);
}

#[test]
fn build_focus_items_snips_long_bodies_and_resets_selection() {
    let mut app = App::new();
    let long: String = std::iter::repeat('é').take(401).collect();
    app.comments = vec![comment(&long, "x", 7, vec![]), comment("short", "y", 8, vec![])];
    app.focus_selected = 9;
    app.build_focus_items();
    assert_eq!(app.focus_selected, 0);
    assert_eq!(app.focus_items[0].body.chars().count(), 403);
    assert!(app.focus_items[0].body.ends_with("é..."));
    assert_eq!(app.focus_items[1].body, "short");
    assert_eq!(app.focus_items[1].score, 8);
    assert_eq!(app.focus_items[1].author, "y");
    assert_eq!(app.focus_items[1].depth, 0);
    assert!(!app.focus_items[1].has_children);
}

#[test]
fn many_siblings_have_decimal_paths() {
    let mut app = App::new();
    let replies: Vec<Comment> = (0..12).map(|i| comment(&format!("r{}", i), "a", 0, vec![])).collect();
    app.comments = vec![comment("p", "b", 0, replies)];
    app.expanded = vec!["0".to_string()];
    app.build_focus_items();
    assert_eq!(app.focus_items.len(), 13);
    assert_eq!(app.focus_items[11].path, "0.10");
    assert_eq!(app.focus_items[12].path, "0.11");
}

#[test]
fn open_focused_selects_post() {
    let mut app = App::new();
    app.open_focused();
    assert_eq!(app.view, View::List);
    app.posts = vec![post("first", "/r/rust/1"), post("second", "/r/rust/2")];
    app.list_selected = 7;
    app.expanded = vec!["0".to_string()];
    app.open_focused();
    assert_eq!(app.view, View::Focus);
    assert_eq!(app.focused.as_ref().unwrap().title, "second");
    assert!(app.expanded.is_empty());
    assert_eq!(app.focus_selected, 0);
}

#[test]
fn keys_drive_the_state() {
    let mut app = App::new();
    assert!(matches!(app.handle_key(Key::Char { ch: 'c', ctrl: true }), Action::Quit));
    assert!(matches!(app.handle_key(Key::Char { ch: ':', ctrl: false }), Action::Nothing));
    assert!(app.command_mode);
    for ch in "goto rustt".chars() {
        app.handle_key(Key::Char { ch, ctrl: false });
    }
    app.handle_key(Key::Backspace);
    assert_eq!(app.input, "goto rust");
    match app.handle_key(Key::Enter) {
        Action::LoadPosts { url, command } => {
            assert_eq!(url, "https://www.reddit.com/r/rust/.json");
            assert_eq!(command, "goto rust");
        }
        _ => panic!("expected a listing load"),
    }
    assert!(app.loading_posts);
    assert!(!app.command_mode);

    app.on_posts_loaded(Ok(vec![post("a", "/r/rust/a"), post("b", "/r/rust/b")]));
    assert!(!app.loading_posts);
    assert_eq!(app.messages.last().unwrap(), "Loaded 2 posts");

    app.handle_key(Key::Down);
    app.handle_key(Key::Down);
    assert_eq!(app.list_selected, 1);
    app.handle_key(Key::Up);
    assert_eq!(app.list_selected, 0);
    app.handle_key(Key::Enter);
    assert_eq!(app.view, View::Focus);
    match app.handle_key(Key::Char { ch: 'L', ctrl: false }) {
        Action::LoadComments { url } => assert_eq!(url, "https://www.reddit.com/r/rust/a.json"),
        _ => panic!("expected a comment load"),
    }
    assert!(app.loading_comments);
    app.on_comments_loaded(Ok(vec![comment("x", "y", 1, vec![])]));
    assert!(!app.loading_comments);
    assert_eq!(app.messages.last().unwrap(), "Loaded 1 comments");
    assert_eq!(app.focus_items.len(), 1);

    app.on_comments_loaded(Err(FetchError::Status(404)));
    assert_eq!(app.messages.last().unwrap(), "Failed to load comments: HTTP status error: 404");

    app.handle_key(Key::Esc);
    assert_eq!(app.view, View::List);

    app.handle_key(Key::Char { ch: ':', ctrl: false });
    app.handle_key(Key::Char { ch: 'x', ctrl: false });
    app.handle_key(Key::Esc);
    assert!(!app.command_mode);
    assert!(app.input.is_empty());
}

#[test]
fn posts_load_failure_is_reported() {
    let mut app = App::new();
    let url = app.start();
    assert_eq!(url, "https://www.reddit.com/.json");
    assert!(app.loading_posts);
    app.on_posts_loaded(Err(FetchError::Parse("bad".to_string())));
    assert!(!app.loading_posts);
    assert_eq!(app.messages, vec!["Failed to load posts: Parse error: bad".to_string()]);
}

#[test]
fn flash_notice_counts_down() {
    let mut app = App::new();
    app.flash_message = Some("hi".to_string());
    app.flash_ttl = 2;
    app.tick();
    assert_eq!(app.flash_ttl, 1);
    assert!(app.flash_message.is_some());
    app.tick();
    assert_eq!(app.flash_ttl, 0);
    assert!(app.flash_message.is_none());
    app.tick();
    assert_eq!(app.flash_ttl, 0);
}

#[test]
fn loaded_comments_start_collapsed() {
    let mut app = App::new();
    app.on_comments_loaded(Ok(vec![
        comment("a", "x", 1, vec![comment("a1", "y", 1, vec![])]),
        comment("b", "x", 2, vec![]),
        comment("c", "x", 3, vec![comment("c1", "y", 1, vec![comment("c11", "z", 1, vec![])])]),
    ]));
    let paths: Vec<&str> = app.focus_items.iter().map(|it| it.path.as_str()).collect();
    assert_eq!(paths, vec!["0", "1", "2"]);
    assert!(app.focus_items.iter().all(|it| it.depth == 0));
    let bodies: Vec<&str> = app.focus_items.iter().map(|it| it.body.as_str()).collect();
    assert_eq!(bodies, vec!["a", "b", "c"]);
    assert!(app.expanded.is_empty());
}

#[test]
fn selections_stay_in_range() {
    let mut app = App::new();
    app.on_posts_loaded(Ok(vec![post("a", "/a"), post("b", "/b")]));
    for _ in 0..5 {
        app.handle_key(Key::Down);
    }
    assert_eq!(app.list_selected, 1);
    app.handle_key(Key::Enter);
    assert_eq!(app.focused.as_ref().unwrap().title, "b");
    app.on_comments_loaded(Ok(vec![
        comment("p", "x", 1, vec![comment("q", "y", 1, vec![])]),
        comment("r", "x", 1, vec![]),
    ]));
    for _ in 0..5 {
        app.handle_key(Key::Down);
    }
    assert_eq!(app.focus_selected, 1);
    app.handle_key(Key::Up);
    app.handle_key(Key::Enter);
    assert_eq!(app.focus_items.len(), 3);
    assert_eq!(app.focus_selected, 0);
    for _ in 0..5 {
        app.handle_key(Key::Down);
    }
    assert_eq!(app.focus_selected, 2);
    // a new load keeps the selection where it still points at a row
    app.on_comments_loaded(Ok(vec![comment("only", "x", 1, vec![])]));
    assert_eq!(app.focus_items.len(), 1);
    assert_eq!(app.focus_selected, 0);
}

#[test]
fn up_and_down_undo_each_other() {
    let mut app = App::new();
    app.on_posts_loaded(Ok(vec![post("a", "/a"), post("b", "/b"), post("c", "/c")]));
    app.handle_key(Key::Down);
    assert_eq!(app.list_selected, 1);
    app.handle_key(Key::Down);
    app.handle_key(Key::Up);
    assert_eq!(app.list_selected, 1);
    app.handle_key(Key::Up);
    app.handle_key(Key::Down);
    assert_eq!(app.list_selected, 1);
}

#[test]
fn opening_and_going_back_keeps_the_list() {
    let mut app = App::new();
    app.on_posts_loaded(Ok(vec![post("a", "/a"), post("b", "/b")]));
    app.handle_key(Key::Down);
    app.handle_key(Key::Enter);
    assert_eq!(app.view, View::Focus);
    app.handle_key(Key::Esc);
    assert_eq!(app.view, View::List);
    assert_eq!(app.list_selected, 1);
    assert_eq!(app.posts.len(), 2);
    assert_eq!(app.posts[0].title, "a");
}

#[test]
fn typing_and_erasing_restores_the_input() {
    let mut app = App::new();
    app.handle_key(Key::Char { ch: ':', ctrl: false });
    for ch in "home".chars() {
        app.handle_key(Key::Char { ch, ctrl: false });
    }
    app.handle_key(Key::Char { ch: 'é', ctrl: false });
    app.handle_key(Key::Backspace);
    assert_eq!(app.input, "home");
    assert!(app.command_mode);
}

#[test]
fn notice_of_a_bad_command_lasts_thirty_frames() {
    let mut app = App::new();
    app.input = "frobnicate".to_string();
    let (quit, target) = app.submit_command();
    assert!(!quit);
    assert_eq!(target, None);
    assert_eq!(app.flash_ttl, 30);
    for _ in 0..29 {
        app.tick();
        assert_eq!(
            app.flash_message.as_deref(),
            Some("Unknown command. Use 'goto <subreddit>' or 'search <query>'")
        );
    }
    app.tick();
    assert!(app.flash_message.is_none());
    assert_eq!(app.flash_ttl, 0);
}

#[test]
fn rows_show_comments_under_expanded_ones_only() {
    let mut app = App::new();
    app.comments = vec![
        comment("p", "x", 1, vec![comment("q", "y", 1, vec![comment("r", "z", 1, vec![])])]),
        comment("s", "x", 1, vec![]),
    ];
    // "0.0" is expanded but its parent "0" is not: nothing below "0" shows
    app.expanded = vec!["0.0".to_string()];
    app.build_focus_items();
    let paths: Vec<&str> = app.focus_items.iter().map(|it| it.path.as_str()).collect();
    assert_eq!(paths, vec!["0", "1"]);

    app.expanded = vec!["0.0".to_string(), "0".to_string()];
    app.build_focus_items();
    let rows: Vec<(&str, usize, &str)> = app
        .focus_items
        .iter()
        .map(|it| (it.path.as_str(), it.depth, it.body.as_str()))
        .collect();
    assert_eq!(rows, vec![("0", 0, "p"), ("0.0", 1, "q"), ("0.0.0", 2, "r"), ("1", 0, "s")]);
    let mut paths: Vec<&str> = rows.iter().map(|r| r.0).collect();
    paths.sort();
    paths.dedup();
    assert_eq!(paths.len(), 4);
}

#[test]
fn only_commands_naming_a_listing_load() {
    let mut app = App::new();
    for (input, want) in [
        ("search", None),
        ("  ", None),
        ("bogus thing", None),
        ("  goto   rust  ", Some(("https://www.reddit.com/r/rust/.json", "goto   rust"))),
        ("/", Some(("https://www.reddit.com/.json", "/"))),
    ] {
        app.command_mode = true;
        app.input = input.to_string();
        match (app.handle_key(Key::Enter), want) {
            (Action::LoadPosts { url, command }, Some((u, c))) => {
                assert_eq!(url, u);
                assert_eq!(command, c);
            }
            (Action::Nothing, None) => {}
            _ => panic!("unexpected action for {:?}", input),
        }
        assert!(!app.command_mode);
    }
    app.command_mode = true;
    app.input = " q ".to_string();
    assert!(matches!(app.handle_key(Key::Enter), Action::Quit));
}

#[test]
fn notice_outlasts_keys_that_leave_it_alone() {
    let mut app = App::new();
    app.on_posts_loaded(Ok(vec![post("a", "/a"), post("b", "/b")]));
    app.command_mode = true;
    app.input = "goto".to_string();
    app.handle_key(Key::Enter);
    assert_eq!(app.flash_message.as_deref(), Some("Usage: goto <subreddit>"));
    for frame in 0..30 {
        assert!(app.flash_message.is_some(), "gone early at frame {}", frame);
        let key = if frame % 2 == 0 { Key::Down } else { Key::Up };
        app.handle_key(key);
        app.tick();
    }
    assert!(app.flash_message.is_none());
    assert_eq!(app.flash_ttl, 0);
}

#[test]
fn toggling_never_lists_a_path_twice() {
    let mut app = App::new();
    app.comments = vec![comment("p", "x", 1, vec![comment("q", "y", 1, vec![])])];
    app.build_focus_items();
    for _ in 0..5 {
        app.focus_selected = 0;
        app.toggle_selected();
        let mut e = app.expanded.clone();
        e.sort();
        e.dedup();
        assert_eq!(e.len(), app.expanded.len());
    }
    assert!(app.is_expanded("0"));
}
