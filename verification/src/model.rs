//! Posts and comments, and their extraction from the JSON documents that
//! reddit serves: a post listing (`{kind, data: {children: [{kind, data}]}}`)
//! and a comment thread (`[listing of the post, listing of the comments]`).
use vstd::prelude::*;

use crate::json::{deref_opt, lemma_field_smaller, JsonValue};
use crate::text::{owned, same_text};

verus! {

/// A post of a listing.
///
/// `upvote_ratio_bits` is the IEEE-754 bit pattern of the single-precision
/// upvote ratio (that of 0.0 where the listing has none).
#[derive(Debug, Clone)]
pub struct Post {
    pub author: String,
    pub num_comments: u32,
    pub media_url: Option<String>,
    pub selftext: Option<String>,
    pub perma_link: String,
    pub subreddit: String,
    pub title: String,
    pub score: u32,
    pub upvote_ratio_bits: u32,
    pub creation_time: i64,
}

/// The mathematical content of a post.
pub struct PostView {
    pub author: Seq<char>,
    pub num_comments: u32,
    pub media_url: Option<Seq<char>>,
    pub selftext: Option<Seq<char>>,
    pub perma_link: Seq<char>,
    pub subreddit: Seq<char>,
    pub title: Seq<char>,
    pub score: u32,
    pub upvote_ratio_bits: u32,
    pub creation_time: i64,
}

/// The characters of an optional string.
pub open spec fn opt_text(o: Option<String>) -> Option<Seq<char>> {
    match o {
        Some(s) => Some(s@),
        None => None,
    }
}

impl View for Post {
    type V = PostView;

    open spec fn view(&self) -> PostView {
        PostView {
            author: self.author@,
            num_comments: self.num_comments,
            media_url: opt_text(self.media_url),
            selftext: opt_text(self.selftext),
            perma_link: self.perma_link@,
            subreddit: self.subreddit@,
            title: self.title@,
            score: self.score,
            upvote_ratio_bits: self.upvote_ratio_bits,
            creation_time: self.creation_time,
        }
    }
}

/// A comment and its replies.
#[derive(Debug)]
pub struct Comment {
    pub body: String,
    pub replies: Vec<Comment>,
    pub score: u32,
    pub author: String,
    pub permalink: String,
}

/// The mathematical content of a comment and its replies.
pub struct CommentView {
    pub body: Seq<char>,
    pub replies: Seq<CommentView>,
    pub score: u32,
    pub author: Seq<char>,
    pub permalink: Seq<char>,
}

/// The content of a comment.
pub open spec fn comment_view(c: Comment) -> CommentView
    decreases c,
{
    CommentView {
        body: c.body@,
        replies: comments_view(c.replies@),
        score: c.score,
        author: c.author@,
        permalink: c.permalink@,
    }
}

/// The contents of a sequence of comments.
pub open spec fn comments_view(s: Seq<Comment>) -> Seq<CommentView>
    decreases s,
{
    if s.len() == 0 {
        seq![]
    } else {
        comments_view(s.drop_last()).push(comment_view(s.last()))
    }
}

pub proof fn lemma_comments_view(s: Seq<Comment>)
    ensures
        comments_view(s).len() == s.len(),
        forall|i: int| 0 <= i < s.len() ==> #[trigger] comments_view(s)[i] == comment_view(s[i]),
    decreases s.len(),
{
    if s.len() > 0 {
        lemma_comments_view(s.drop_last());
        assert forall|i: int| 0 <= i < s.len() implies #[trigger] comments_view(s)[i]
            == comment_view(s[i]) by {
            if i < s.len() - 1 {
                assert(s.drop_last()[i] == s[i]);
            }
        }
    }
}

impl View for Comment {
    type V = CommentView;

    open spec fn view(&self) -> CommentView {
        comment_view(*self)
    }
}

// ---------------------------------------------------------------------------
// Readings of a JSON object's members, with the defaults of the extraction
// ---------------------------------------------------------------------------

/// Member `key` read as a string, `""` where it is missing or no string.
pub open spec fn text_or_empty(v: JsonValue, key: Seq<char>) -> Seq<char> {
    match v.field(key) {
        Some(JsonValue::Str(s)) => s@,
        _ => seq![],
    }
}

/// Member `key` read as a string, nothing where it is missing, no string
/// or empty.
pub open spec fn nonempty_text(v: JsonValue, key: Seq<char>) -> Option<Seq<char>> {
    match v.field(key) {
        Some(JsonValue::Str(s)) => if s@.len() == 0 {
            None
        } else {
            Some(s@)
        },
        _ => None,
    }
}

/// Member `key` read as an unsigned integer, 0 where it is none.
pub open spec fn u64_or_zero(v: JsonValue, key: Seq<char>) -> u64 {
    match v.field(key) {
        Some(JsonValue::Number(n)) => match n.as_u64 {
            Some(x) => x,
            None => 0,
        },
        _ => 0,
    }
}

/// Member `key` read as a signed integer.
pub open spec fn i64_of(v: JsonValue, key: Seq<char>) -> Option<i64> {
    match v.field(key) {
        Some(JsonValue::Number(n)) => n.as_i64,
        _ => None,
    }
}

/// Member `key` read as a single-precision float (by its bit pattern), 0.0
/// (bit pattern 0) where it is no number.
pub open spec fn f32_bits_or_zero(v: JsonValue, key: Seq<char>) -> u32 {
    match v.field(key) {
        Some(JsonValue::Number(n)) => n.f32_bits,
        _ => 0,
    }
}

/// Member `key` read as a double and converted to a signed integer, 0 where
/// it is no number.
pub open spec fn whole_or_zero(v: JsonValue, key: Seq<char>) -> i64 {
    match v.field(key) {
        Some(JsonValue::Number(n)) => n.f64_as_i64,
        _ => 0,
    }
}

/// The media link of a post's data: `url_overridden_by_dest` where that
/// member exists, else `url`; nothing where it is no string, empty or
/// `"self"`.
pub open spec fn media_of(data: JsonValue) -> Option<Seq<char>> {
    let m = if data.field("url_overridden_by_dest"@) is Some {
        data.field("url_overridden_by_dest"@)
    } else {
        data.field("url"@)
    };
    match m {
        Some(JsonValue::Str(s)) => if s@.len() == 0 || s@ == "self"@ {
            None
        } else {
            Some(s@)
        },
        _ => None,
    }
}

/// The post that a listing child describes (its `data` member).
pub open spec fn post_of(child: JsonValue) -> PostView {
    let data = child.at("data"@);
    PostView {
        author: text_or_empty(data, "author"@),
        num_comments: u64_or_zero(data, "num_comments"@) as u32,
        media_url: media_of(data),
        selftext: nonempty_text(data, "selftext"@),
        perma_link: text_or_empty(data, "permalink"@),
        subreddit: text_or_empty(data, "subreddit"@),
        title: text_or_empty(data, "title"@),
        score: u64_or_zero(data, "score"@) as u32,
        upvote_ratio_bits: f32_bits_or_zero(data, "upvote_ratio"@),
        creation_time: whole_or_zero(data, "created_utc"@),
    }
}

/// The `data.children` array of a listing, empty where there is none.
pub open spec fn listing_children(listing: JsonValue) -> Seq<JsonValue> {
    match listing.field("data"@) {
        Some(d) => match d.field("children"@) {
            Some(JsonValue::Array(a)) => a@,
            _ => seq![],
        },
        None => seq![],
    }
}

/// The posts of a listing, one per child, in order.
pub open spec fn posts_of(listing: JsonValue) -> Seq<PostView> {
    listing_children(listing).map_values(|c: JsonValue| post_of(c))
}

/// The score of a comment's data: `score`, else `ups`, as a signed integer,
/// else 0; truncated to 32 bits.
pub open spec fn comment_score(data: JsonValue) -> u32 {
    let s = match i64_of(data, "score"@) {
        Some(x) => x,
        None => match i64_of(data, "ups"@) {
            Some(y) => y,
            None => 0,
        },
    };
    s as u32
}

/// The comment that a thread child of kind `t1` describes, with its replies.
pub open spec fn comment_of(v: JsonValue) -> Option<CommentView>
    decreases v,
{
    let kind = match v.field("kind"@) {
        Some(JsonValue::Str(k)) => k@,
        _ => seq![],
    };
    if kind != "t1"@ {
        None
    } else {
        match v.field("data"@) {
            None => None,
            Some(data) => {
                proof {
                    lemma_field_smaller(v, "data"@);
                }
                Some(
                    CommentView {
                        body: text_or_empty(data, "body"@),
                        replies: replies_of(data),
                        score: comment_score(data),
                        author: text_or_empty(data, "author"@),
                        permalink: text_or_empty(data, "permalink"@),
                    },
                )
            },
        }
    }
}

/// The replies of a comment's data: the comments among the children of its
/// `replies` member, where that member is an object.
pub open spec fn replies_of(data: JsonValue) -> Seq<CommentView>
    decreases data,
{
    match data.field("replies"@) {
        Some(JsonValue::Object(r)) => {
            proof {
                lemma_field_smaller(data, "replies"@);
            }
            let rep = JsonValue::Object(r);
            match rep.field("data"@) {
                Some(d) => {
                    proof {
                        lemma_field_smaller(rep, "data"@);
                    }
                    match d.field("children"@) {
                        Some(JsonValue::Array(a)) => {
                            proof {
                                lemma_field_smaller(d, "children"@);
                                assert(decreases_to!(a => a@));
                            }
                            comments_in(a@)
                        },
                        _ => seq![],
                    }
                },
                None => seq![],
            }
        },
        _ => seq![],
    }
}

/// The comments among a sequence of thread children, in order.
pub open spec fn comments_in(s: Seq<JsonValue>) -> Seq<CommentView>
    decreases s,
{
    if s.len() == 0 {
        seq![]
    } else {
        let rest = comments_in(s.drop_last());
        match comment_of(s.last()) {
            Some(c) => rest.push(c),
            None => rest,
        }
    }
}

/// The comments of a thread: those among the children of the listing that
/// is the thread's second element.
pub open spec fn thread_comments(thread: JsonValue) -> Seq<CommentView> {
    match thread {
        JsonValue::Array(a) => if a@.len() >= 2 {
            match a@[1].field("data"@) {
                Some(d) => match d.field("children"@) {
                    Some(JsonValue::Array(c)) => comments_in(c@),
                    _ => seq![],
                },
                None => seq![],
            }
        } else {
            seq![]
        },
        _ => seq![],
    }
}

// ---------------------------------------------------------------------------
// Extraction
// ---------------------------------------------------------------------------

fn text_field(v: &JsonValue, key: &str) -> (r: String)
    ensures
        r@ == text_or_empty(*v, key@),
{
    match v.get(key) {
        Some(JsonValue::Str(s)) => s.clone(),
        _ => String::new(),
    }
}

fn nonempty_field(v: &JsonValue, key: &str) -> (r: Option<String>)
    ensures
        opt_text(r) == nonempty_text(*v, key@),
{
    match v.get(key) {
        Some(JsonValue::Str(s)) => if s.as_str().is_empty() {
            None
        } else {
            Some(s.clone())
        },
        _ => None,
    }
}

fn u64_field(v: &JsonValue, key: &str) -> (r: u64)
    ensures
        r == u64_or_zero(*v, key@),
{
    match v.get(key) {
        Some(JsonValue::Number(n)) => match n.as_u64 {
            Some(x) => x,
            None => 0,
        },
        _ => 0,
    }
}

fn i64_field(v: &JsonValue, key: &str) -> (r: Option<i64>)
    ensures
        r == i64_of(*v, key@),
{
    match v.get(key) {
        Some(JsonValue::Number(n)) => n.as_i64,
        _ => None,
    }
}

fn f32_bits_field(v: &JsonValue, key: &str) -> (r: u32)
    ensures
        r == f32_bits_or_zero(*v, key@),
{
    match v.get(key) {
        Some(JsonValue::Number(n)) => n.f32_bits,
        _ => 0,
    }
}

fn whole_field(v: &JsonValue, key: &str) -> (r: i64)
    ensures
        r == whole_or_zero(*v, key@),
{
    match v.get(key) {
        Some(JsonValue::Number(n)) => n.f64_as_i64,
        _ => 0,
    }
}

fn media_field(data: &JsonValue) -> (r: Option<String>)
    ensures
        opt_text(r) == media_of(*data),
{
    let first = data.get("url_overridden_by_dest");
    let m = match first {
        Some(x) => Some(x),
        None => data.get("url"),
    };
    match m {
        Some(JsonValue::Str(s)) => {
            if s.as_str().is_empty() || same_text(s.as_str(), "self") {
                None
            } else {
                Some(s.clone())
            }
        },
        _ => None,
    }
}

impl Post {
    /// A copy of the post.
    pub fn duplicate(&self) -> (r: Post)
        ensures
            r@ == self@,
    {
        let media_url = match &self.media_url {
            Some(s) => Some(s.clone()),
            None => None,
        };
        let selftext = match &self.selftext {
            Some(s) => Some(s.clone()),
            None => None,
        };
        Post {
            author: self.author.clone(),
            num_comments: self.num_comments,
            media_url,
            selftext,
            perma_link: self.perma_link.clone(),
            subreddit: self.subreddit.clone(),
            title: self.title.clone(),
            score: self.score,
            upvote_ratio_bits: self.upvote_ratio_bits,
            creation_time: self.creation_time,
        }
    }

    /// The post that one child of a listing describes.
    pub fn from_child(child: &JsonValue) -> (p: Post)
        ensures
            p@ == post_of(*child),
    {
        let null = JsonValue::Null;
        let data = match child.get("data") {
            Some(d) => d,
            None => &null,
        };
        assert(*data == child.at("data"@));
        Post {
            author: text_field(data, "author"),
            num_comments: u64_field(data, "num_comments") as u32,
            media_url: media_field(data),
            selftext: nonempty_field(data, "selftext"),
            perma_link: text_field(data, "permalink"),
            subreddit: text_field(data, "subreddit"),
            title: text_field(data, "title"),
            score: u64_field(data, "score") as u32,
            upvote_ratio_bits: f32_bits_field(data, "upvote_ratio"),
            creation_time: whole_field(data, "created_utc"),
        }
    }

    /// The posts of a listing document, one per child of `data.children`,
    /// in order; none where the document has no such array.
    pub fn from_listing(listing: &JsonValue) -> (r: Vec<Post>)
        ensures
            r@.map_values(|p: Post| p@) == posts_of(*listing),
    {
        let mut out: Vec<Post> = Vec::new();
        let children = match listing.get("data") {
            Some(d) => match d.get("children") {
                Some(JsonValue::Array(a)) => Some(a),
                _ => None,
            },
            None => None,
        };
        match children {
            Some(a) => {
                assert(listing_children(*listing) == a@);
                let mut i: usize = 0;
                while i < a.len()
                    invariant
                        i <= a@.len(),
                        listing_children(*listing) == a@,
                        out@.len() == i,
                        forall|j: int| 0 <= j < i ==> #[trigger] out@[j]@ == post_of(a@[j]),
                    decreases a.len() - i,
                {
                    let p = Post::from_child(&a[i]);
                    out.push(p);
                    i += 1;
                }
                assert(out@.map_values(|p: Post| p@) =~= posts_of(*listing));
            },
            None => {
                assert(listing_children(*listing) == Seq::<JsonValue>::empty());
                assert(out@.map_values(|p: Post| p@) =~= posts_of(*listing));
            },
        }
        out
    }
}

/// The comments among the children `a`, with their replies.
fn comments_from(a: &Vec<JsonValue>) -> (r: Vec<Comment>)
    ensures
        comments_view(r@) == comments_in(a@),
    decreases a@, 1nat,
{
    let mut out: Vec<Comment> = Vec::new();
    let mut i: usize = 0;
    assert(a@.take(0) =~= Seq::<JsonValue>::empty());
    while i < a.len()
        invariant
            i <= a@.len(),
            comments_view(out@) == comments_in(a@.take(i as int)),
        decreases a.len() - i,
    {
        assert(a@.take(i + 1).drop_last() =~= a@.take(i as int));
        assert(a@.take(i + 1).last() == a@[i as int]);
        let ghost old_out = out@;
        match parse_comment(&a[i]) {
            Some(c) => {
                out.push(c);
                assert(out@.drop_last() =~= old_out);
            },
            None => {},
        }
        i += 1;
    }
    assert(a@.take(a@.len() as int) =~= a@);
    out
}

/// Parses one thread child into a comment: nothing unless its `kind` is
/// `"t1"` and it has a `data` member.
pub fn parse_comment(v: &JsonValue) -> (r: Option<Comment>)
    ensures
        match r {
            Some(c) => comment_of(*v) == Some(c@),
            None => comment_of(*v) is None,
        },
    decreases *v, 0nat,
{
    proof {
        reveal_strlit("t1");
    }
    let ghost kind = match v.field("kind"@) {
        Some(JsonValue::Str(k)) => k@,
        _ => seq![],
    };
    let kind_t1 = match v.get("kind") {
        Some(JsonValue::Str(k)) => {
            assert(kind == k@);
            same_text(k.as_str(), "t1")
        },
        _ => {
            assert(kind == Seq::<char>::empty());
            assert("t1"@.len() == 2);
            false
        },
    };
    assert(kind_t1 == (kind == "t1"@));
    if !kind_t1 {
        return None;
    }
    let data = match v.get("data") {
        Some(d) => d,
        None => {
            return None;
        },
    };
    proof {
        lemma_field_smaller(*v, "data"@);
    }
    let body = text_field(data, "body");
    let score_opt = match i64_field(data, "score") {
        Some(x) => Some(x),
        None => i64_field(data, "ups"),
    };
    let score: i64 = match score_opt {
        Some(x) => x,
        None => 0,
    };
    let author = text_field(data, "author");
    let permalink = text_field(data, "permalink");
    let replies = replies_from(data);
    Some(Comment { body, replies, score: score as u32, author, permalink })
}

/// The replies of a comment's data.
fn replies_from(data: &JsonValue) -> (r: Vec<Comment>)
    ensures
        comments_view(r@) == replies_of(*data),
    decreases *data, 2nat,
{
    match data.get("replies") {
        Some(rep) => match rep {
            JsonValue::Object(_) => {
                proof {
                    lemma_field_smaller(*data, "replies"@);
                }
                match rep.get("data") {
                    Some(d) => {
                        proof {
                            lemma_field_smaller(*rep, "data"@);
                        }
                        match d.get("children") {
                            Some(JsonValue::Array(a)) => {
                                proof {
                                    lemma_field_smaller(*d, "children"@);
                                }
                                comments_from(a)
                            },
                            _ => Vec::new(),
                        }
                    },
                    None => Vec::new(),
                }
            },
            _ => Vec::new(),
        },
        None => Vec::new(),
    }
}

impl Comment {
    /// The comments of a thread document: those among the children of the
    /// listing that is the document's second element.
    pub fn from_thread(thread: &JsonValue) -> (r: Vec<Comment>)
        ensures
            comments_view(r@) == thread_comments(*thread),
    {
        match thread {
            JsonValue::Array(a) => {
                if a.len() >= 2 {
                    match a[1].get("data") {
                        Some(d) => match d.get("children") {
                            Some(JsonValue::Array(c)) => comments_from(c),
                            _ => Vec::new(),
                        },
                        None => Vec::new(),
                    }
                } else {
                    Vec::new()
                }
            },
            _ => Vec::new(),
        }
    }
}

/// The local path that a listing or thread address names: the address
/// without a leading `file://`.
pub open spec fn local_path_of(url: Seq<char>) -> Seq<char> {
    if crate::text::starts_with(url, "file://"@) {
        url.skip(7)
    } else {
        url
    }
}

/// The local path that a listing or thread address names.
pub fn local_path(url: &str) -> (r: String)
    ensures
        r@ == local_path_of(url@),
{
    let v = crate::text::chars_of(url);
    let p = crate::text::chars_of("file://");
    proof {
        reveal_strlit("file://");
    }
    if crate::text::chars_start_with(&v, &p) {
        crate::text::string_of_range(&v, 7, v.len())
    } else {
        owned(url)
    }
}


// ---------------------------------------------------------------------------
// What the extraction reads
// ---------------------------------------------------------------------------

/// Each field of a post comes from the member of the child's `data` object
/// that bears its name: a string member gives the text (an absent or
/// non-string member gives `""`; for the self text an empty text or a
/// non-string member gives none), a number member read as an unsigned
/// integer gives the count (truncated to 32 bits; 0 otherwise), and the
/// media link comes from `url_overridden_by_dest` where that member exists,
/// else from `url`, and is never empty or `self`.
pub proof fn law_post_reads_its_members(child: JsonValue)
    ensures
        ({
            let d = match child.field("data"@) {
                Some(x) => x,
                None => JsonValue::Null,
            };
            let p = post_of(child);
            let sel = d.field("selftext"@);
            let score = match d.field("score"@) {
                Some(JsonValue::Number(n)) => n.as_u64,
                _ => None,
            };
            let count = match d.field("num_comments"@) {
                Some(JsonValue::Number(n)) => n.as_u64,
                _ => None,
            };
            let od = d.field("url_overridden_by_dest"@);
            &&& (d.field("title"@) matches Some(JsonValue::Str(s)) ==> p.title == s@)
            &&& (!(d.field("title"@) matches Some(JsonValue::Str(_))) ==> p.title == Seq::<char>::empty())
            &&& (d.field("author"@) matches Some(JsonValue::Str(s)) ==> p.author == s@)
            &&& (!(d.field("author"@) matches Some(JsonValue::Str(_))) ==> p.author == Seq::<char>::empty())
            &&& (d.field("subreddit"@) matches Some(JsonValue::Str(s)) ==> p.subreddit == s@)
            &&& (!(d.field("subreddit"@) matches Some(JsonValue::Str(_))) ==> p.subreddit
                == Seq::<char>::empty())
            &&& (d.field("permalink"@) matches Some(JsonValue::Str(s)) ==> p.perma_link == s@)
            &&& (!(d.field("permalink"@) matches Some(JsonValue::Str(_))) ==> p.perma_link
                == Seq::<char>::empty())
            &&& (sel matches Some(JsonValue::Str(s)) ==> p.selftext == if s@.len() > 0 {
                Some(s@)
            } else {
                None
            })
            &&& (!(sel matches Some(JsonValue::Str(_))) ==> p.selftext is None)
            &&& (score matches Some(x) ==> p.score == x as u32)
            &&& (score is None ==> p.score == 0)
            &&& (count matches Some(x) ==> p.num_comments == x as u32)
            &&& (count is None ==> p.num_comments == 0)
            &&& (od matches Some(JsonValue::Str(u)) ==> p.media_url == if u@.len() > 0 && u@ != "self"@ {
                Some(u@)
            } else {
                None
            })
            &&& (od is Some && !(od matches Some(JsonValue::Str(_))) ==> p.media_url is None)
            &&& (od is None ==> (d.field("url"@) matches Some(JsonValue::Str(u)) ==> p.media_url == if u@.len()
                > 0 && u@ != "self"@ {
                Some(u@)
            } else {
                None
            }))
            &&& (od is None && !(d.field("url"@) matches Some(JsonValue::Str(_))) ==> p.media_url is None)
        }),
{
}

/// A thread child becomes a comment exactly when its `kind` is the string
/// `t1` and it has a `data` member; the comment's body, author and
/// permalink are those string members of `data` (`""` otherwise), and its
/// score is the `score` member read as a signed integer, else `ups`, else
/// 0 (truncated to 32 bits).
pub proof fn law_comment_reads_its_members(v: JsonValue)
    ensures
        comment_of(v) is Some <==> (match v.field("kind"@) {
            Some(JsonValue::Str(k)) => k@ == "t1"@,
            _ => false,
        } && v.field("data"@) is Some),
        ({
            let d = match v.field("data"@) {
                Some(x) => x,
                None => JsonValue::Null,
            };
            let score = match d.field("score"@) {
                Some(JsonValue::Number(n)) => n.as_i64,
                _ => None,
            };
            let ups = match d.field("ups"@) {
                Some(JsonValue::Number(n)) => n.as_i64,
                _ => None,
            };
            comment_of(v) matches Some(c) ==> {
                &&& (d.field("body"@) matches Some(JsonValue::Str(s)) ==> c.body == s@)
                &&& (!(d.field("body"@) matches Some(JsonValue::Str(_))) ==> c.body == Seq::<char>::empty())
                &&& (d.field("author"@) matches Some(JsonValue::Str(s)) ==> c.author == s@)
                &&& (!(d.field("author"@) matches Some(JsonValue::Str(_))) ==> c.author
                    == Seq::<char>::empty())
                &&& (d.field("permalink"@) matches Some(JsonValue::Str(s)) ==> c.permalink == s@)
                &&& (!(d.field("permalink"@) matches Some(JsonValue::Str(_))) ==> c.permalink
                    == Seq::<char>::empty())
                &&& (score matches Some(x) ==> c.score == x as u32)
                &&& (score is None ==> (ups matches Some(y) ==> c.score == y as u32))
                &&& (score is None && ups is None ==> c.score == 0)
            }
        }),
{
    reveal_strlit("t1");
    assert("t1"@.len() == 2);
}

} // verus!
