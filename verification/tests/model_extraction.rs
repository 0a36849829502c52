use reddit_tui::fetch::{check_status, content_source, ContentSource, FetchError};
use reddit_tui::json::{JsonNumber, JsonValue};
use reddit_tui::model::{local_path, parse_comment, Comment, Post};

/// Reads a JSON text into the library's document model.
fn doc(text: &str) -> JsonValue {
    convert(&serde_json::from_str::<serde_json::Value>(text).unwrap())
}

fn convert(v: &serde_json::Value) -> JsonValue {
    match v {
        serde_json::Value::Null => JsonValue::Null,
        serde_json::Value::Bool(b) => JsonValue::Bool(*b),
        serde_json::Value::Number(n) => JsonValue::Number(JsonNumber {
            as_u64: n.as_u64(),
            as_i64: n.as_i64(),
            f32_bits: (n.as_f64().unwrap_or(0.0) as f32).to_bits(),
            f64_as_i64: n.as_f64().unwrap_or(0.0) as i64,
        }),
        serde_json::Value::String(s) => JsonValue::Str(s.clone()),
        serde_json::Value::Array(a) => JsonValue::Array(a.iter().map(convert).collect()),
        serde_json::Value::Object(m) => {
            JsonValue::Object(m.iter().map(|(k, v)| (k.clone(), convert(v))).collect())
        }
    }
}

const LISTING: &str = r#"{
  "kind": "Listing",
  "data": {
    "after": "t3_x",
    "children": [
      {"kind": "t3", "data": {
        "author": "asker", "num_comments": 1520, "selftext": "", "permalink": "/r/AskReddit/comments/abc/q/",
        "subreddit": "AskReddit", "title": "What is your favourite word?", "score": 9001,
        "upvote_ratio": 0.93, "created_utc": 1700000000.0, "url": "https://www.reddit.com/r/AskReddit/comments/abc/q/",
        "url_overridden_by_dest": null, "is_self": true}},
      {"kind": "t3", "data": {
        "author": "news", "num_comments": 12, "selftext": "Some text", "permalink": "/r/YNNews/comments/def/n/",
        "subreddit": "YNNews", "title": "Headline", "score": 42, "upvote_ratio": 1,
        "created_utc": 1700000001.5, "url_overridden_by_dest": "https://example.com/picture.jpg"}}
    ]
  }
}"#;

const THREAD: &str = r#"[
  {"kind": "Listing", "data": {"children": [{"kind": "t3", "data": {"title": "post"}}]}},
  {"kind": "Listing", "data": {"children": [
    {"kind": "t1", "data": {"body": "Top comment\nsecond line", "author": "alice", "score": 12,
      "permalink": "/r/x/comments/1/c1/",
      "replies": {"kind": "Listing", "data": {"children": [
        {"kind": "t1", "data": {"body": "A reply", "author": "bob", "ups": -1, "replies": ""}},
        {"kind": "more", "data": {"count": 3}}
      ]}}}},
    {"kind": "t1", "data": {"body": "Second", "author": "carol", "score": 1.5, "ups": 3, "replies": ""}},
    {"kind": "more", "data": {"children": ["x"]}}
  ]}}
]"#;

#[test]
fn test_get_posts_from_local_file() {
    let posts = Post::from_listing(&doc(LISTING));

    // Expect two posts in the example
    assert_eq!(posts.len(), 2);

    let p0 = &posts[0];
    // check that some key fields parsed correctly
    assert!(p0.title.len() > 0);
    assert_eq!(p0.subreddit, "AskReddit");
    assert!(p0.num_comments > 0);

    let p1 = &posts[1];
    assert_eq!(p1.subreddit, "YNNews");
    assert!(p1.media_url.is_some());
}

#[test]
fn test_get_comments_from_local_file() {
    let comments = Comment::from_thread(&doc(THREAD));
    assert!(!comments.is_empty());

    let c0 = &comments[0];
    assert!(c0.body.len() > 0);
    assert!(c0.author.len() > 0);

    // ensure nested replies are parsed (if present in the example)
    if !c0.replies.is_empty() {
        assert!(c0.replies[0].body.len() > 0);
    }
}

#[test]
fn post_fields_follow_the_listing() {
    let posts = Post::from_listing(&doc(LISTING));
    let p0 = &posts[0];
    assert_eq!(p0.author, "asker");
    assert_eq!(p0.num_comments, 1520);
    assert_eq!(p0.score, 9001);
    // `url_overridden_by_dest` is present (null): no media, no fallback to `url`
    assert_eq!(p0.media_url, None);
    // empty self text is no self text
    assert_eq!(p0.selftext, None);
    assert_eq!(p0.perma_link, "/r/AskReddit/comments/abc/q/");
    assert_eq!(f32::from_bits(p0.upvote_ratio_bits), 0.93);
    assert_eq!(p0.creation_time, 1700000000);

    let p1 = &posts[1];
    assert_eq!(p1.media_url.as_deref(), Some("https://example.com/picture.jpg"));
    assert_eq!(p1.selftext.as_deref(), Some("Some text"));
    assert_eq!(f32::from_bits(p1.upvote_ratio_bits), 1.0);
    // a fractional creation time is cut towards zero
    assert_eq!(p1.creation_time, 1700000001);
}

#[test]
fn media_falls_back_to_url_and_skips_self() {
    let posts = Post::from_listing(&doc(
        r#"{"data": {"children": [
            {"data": {"url": "https://i.example/a.png"}},
            {"data": {"url": "self"}},
            {"data": {"url": ""}},
            {"nodata": true}
        ]}}"#,
    ));
    assert_eq!(posts.len(), 4);
    assert_eq!(posts[0].media_url.as_deref(), Some("https://i.example/a.png"));
    assert_eq!(posts[1].media_url, None);
    assert_eq!(posts[2].media_url, None);
    // a child without data gives a post of defaults
    assert_eq!(posts[3].title, "");
    assert_eq!(posts[3].score, 0);
    assert_eq!(posts[3].upvote_ratio_bits, 0);
    assert_eq!(posts[3].creation_time, 0);
}

#[test]
fn listing_without_children_gives_no_posts() {
    assert!(Post::from_listing(&doc(r#"{"data": {"children": 3}}"#)).is_empty());
    assert!(Post::from_listing(&doc(r#"[1, 2]"#)).is_empty());
    assert!(Post::from_listing(&JsonValue::Null).is_empty());
}

#[test]
fn comment_scores_and_replies() {
    let comments = Comment::from_thread(&doc(THREAD));
    assert_eq!(comments.len(), 2);
    assert_eq!(comments[0].score, 12);
    assert_eq!(comments[0].permalink, "/r/x/comments/1/c1/");
    assert_eq!(comments[0].replies.len(), 1);
    let reply = &comments[0].replies[0];
    assert_eq!(reply.author, "bob");
    // `ups` of -1 read as a signed integer, then truncated to 32 bits
    assert_eq!(reply.score, u32::MAX);
    assert!(reply.replies.is_empty());
    // a float score is not an integer: `ups` is used
    assert_eq!(comments[1].score, 3);
}

#[test]
fn parse_comment_needs_kind_t1_and_data() {
    assert!(parse_comment(&doc(r#"{"kind": "t3", "data": {}}"#)).is_none());
    assert!(parse_comment(&doc(r#"{"kind": "t1"}"#)).is_none());
    assert!(parse_comment(&doc(r#"{"data": {"body": "x"}}"#)).is_none());
    let c = parse_comment(&doc(r#"{"kind": "t1", "data": {}}"#)).unwrap();
    assert_eq!(c.body, "");
    assert_eq!(c.score, 0);
}

#[test]
fn thread_needs_two_elements() {
    assert!(Comment::from_thread(&doc(r#"[{"data": {}}]"#)).is_empty());
    assert!(Comment::from_thread(&doc(r#"{"data": {}}"#)).is_empty());
}

#[test]
fn json_get_finds_first_member() {
    let v = doc(r#"{"a": 1, "b": "two"}"#);
    assert!(matches!(v.get("b"), Some(JsonValue::Str(s)) if s == "two"));
    assert!(v.get("c").is_none());
    assert!(JsonValue::Null.get("a").is_none());
}

#[test]
fn local_paths_and_sources() {
    assert_eq!(local_path("file:///tmp/x.json"), "/tmp/x.json");
    assert_eq!(local_path("src/x.json"), "src/x.json");
    match content_source("https://www.reddit.com/.json") {
        ContentSource::Http(u) => assert_eq!(u, "https://www.reddit.com/.json"),
        _ => panic!(),
    }
    match content_source("file://a/b.json") {
        ContentSource::File(p) => assert_eq!(p, "a/b.json"),
        _ => panic!(),
    }
    match content_source("http:/not-quite") {
        ContentSource::File(p) => assert_eq!(p, "http:/not-quite"),
        _ => panic!(),
    }
}

#[test]
fn status_checks() {
    assert!(check_status(200).is_ok());
    assert!(check_status(299).is_ok());
    match check_status(404) {
        Err(FetchError::Status(c)) => assert_eq!(c, 404),
        _ => panic!(),
    }
    assert!(check_status(199).is_err());
    assert_eq!(FetchError::Status(503).message(), "HTTP status error: 503");
    assert_eq!(FetchError::Parse("eof".to_string()).message(), "Parse error: eof");
    let io = std::io::Error::new(std::io::ErrorKind::NotFound, "gone");
    assert_eq!(FetchError::Io(io).message(), "IO error: gone");
}
