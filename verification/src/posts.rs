//! The post domain: assembling a `Post` from raw uploaded text.
//!
//! A raw post is split at the first two delimiter lines (a run of three or
//! more dashes followed by a newline): the text between them is a metadata
//! block of `key: value` lines (`title`, `slug`, `date`, others ignored),
//! and the text after the second delimiter is the markdown content.  When
//! no such pair of delimiters exists, or the metadata block does not parse,
//! the whole input is treated as content.  `PostBuilder::build` fills the
//! gaps: a generated placeholder title, a slug derived from the title, the
//! current time, and a placeholder body.

use vstd::prelude::*;
use vstd::string::StrSliceExecFns;
use vstd::string::StringExecFns;

use crate::sluggen::slug_of;
use crate::sluggen::slugify;
use crate::textutil::all_blank;
use crate::textutil::find_char_in;
use crate::textutil::index_of_from;
use crate::textutil::lemma_index_of_from_found;
use crate::textutil::lemma_index_of_from_none;
use crate::textutil::range_is_blank;
use crate::textutil::str_chars;
use crate::textutil::substring_copy;
use crate::textutil::trim_bounds;
use crate::textutil::trim_spec;

verus! {

/// What `chrono::DateTime::parse_from_rfc3339` reads out of a timestamp
/// text, in seconds since the epoch; a function of the text alone.
pub uninterp spec fn rfc3339_secs_of(s: Seq<char>) -> Option<i64>;

/// Relies on `chrono::DateTime::parse_from_rfc3339` and
/// `DateTime::timestamp`: the epoch seconds of an RFC 3339 timestamp, or
/// `None` where the text is not one.
#[verifier::external_body]
pub fn parse_rfc3339_secs(s: &str) -> (r: Option<i64>)
    ensures
        r == rfc3339_secs_of(s@),
{
    chrono::DateTime::parse_from_rfc3339(s).ok().map(|d| d.timestamp())
}

/// What chrono renders for a UTC timestamp at whole-second precision; a
/// function of the seconds alone.
pub uninterp spec fn rfc3339_of(secs: i64) -> Seq<char>;

/// Relies on `chrono::DateTime::from_timestamp` and `to_rfc3339_opts`:
/// renders epoch seconds as an RFC 3339 timestamp; every timestamp between
/// the years 1 and 9999 is in chrono's documented range.
#[verifier::external_body]
pub fn format_rfc3339(secs: i64) -> (r: Option<String>)
    ensures
        r matches Some(t) ==> t@ == rfc3339_of(secs),
        -62135596800 <= secs <= 253402300799 ==> r is Some,
{
    chrono::DateTime::<chrono::Utc>::from_timestamp(secs, 0).map(
        |d| d.to_rfc3339_opts(chrono::SecondsFormat::Secs, true),
    )
}

/// The metadata fields a raw post's front matter can carry.
pub struct MetaV {
    pub title: Option<Seq<char>>,
    pub slug: Option<Seq<char>>,
    pub date: Option<i64>,
}

/// Length of the dash run starting at `i`.
pub open spec fn dash_run(s: Seq<char>, i: int) -> nat
    decreases s.len() - i,
    when 0 <= i <= s.len()
{
    if i < s.len() && s[i] == '-' {
        1 + dash_run(s, i + 1)
    } else {
        0
    }
}

/// A metadata delimiter starts at `i`: three or more dashes followed by a
/// newline.
pub open spec fn delim_at(s: Seq<char>, i: int) -> bool {
    &&& dash_run(s, i) >= 3
    &&& i + dash_run(s, i) < s.len()
    &&& s[i + dash_run(s, i)] == '\n'
}

/// Position of the first delimiter at or after `from`.
pub open spec fn find_delim_spec(s: Seq<char>, from: int) -> Option<int>
    decreases s.len() - from,
    when 0 <= from <= s.len()
{
    if from >= s.len() {
        None
    } else if delim_at(s, from) {
        Some(from)
    } else {
        find_delim_spec(s, from + 1)
    }
}

/// A quoted scalar loses its outer quotes.
pub open spec fn unquote_spec(v: Seq<char>) -> Seq<char> {
    if v.len() >= 2 && v.first() == '"' && v.last() == '"' {
        v.subrange(1, v.len() - 1)
    } else if v.len() >= 2 && v.first() == '\'' && v.last() == '\'' {
        v.subrange(1, v.len() - 1)
    } else {
        v
    }
}

/// One metadata line applied to the fields gathered so far.  A blank line
/// changes nothing; a line without a colon invalidates the whole block; an
/// unknown key is ignored; a `date` value must be an RFC 3339 timestamp.
pub open spec fn parse_meta_line(line: Seq<char>, acc: MetaV) -> Option<MetaV> {
    if all_blank(line) {
        Some(acc)
    } else {
        match index_of_from(line, ':', 0) {
            None => None,
            Some(p) => {
                let key = trim_spec(line.take(p));
                let val = unquote_spec(trim_spec(line.skip(p + 1)));
                if key == "title"@ {
                    Some(MetaV { title: Some(val), slug: acc.slug, date: acc.date })
                } else if key == "slug"@ {
                    Some(MetaV { title: acc.title, slug: Some(val), date: acc.date })
                } else if key == "date"@ {
                    match rfc3339_secs_of(val) {
                        Some(t) => Some(MetaV { title: acc.title, slug: acc.slug, date: Some(t) }),
                        None => None,
                    }
                } else {
                    Some(acc)
                }
            },
        }
    }
}

/// The metadata block `s[from..]` parsed line by line.
pub open spec fn parse_meta_from(s: Seq<char>, from: int, acc: MetaV) -> Option<MetaV>
    decreases s.len() - from,
    when 0 <= from <= s.len()
    via parse_meta_from_decreases
{
    if from >= s.len() {
        Some(acc)
    } else {
        match index_of_from(s, '\n', from) {
            Some(p) => match parse_meta_line(s.subrange(from, p), acc) {
                None => None,
                Some(acc2) => parse_meta_from(s, p + 1, acc2),
            },
            None => parse_meta_line(s.subrange(from, s.len() as int), acc),
        }
    }
}

#[via_fn]
proof fn parse_meta_from_decreases(s: Seq<char>, from: int, acc: MetaV) {
    if from < s.len() {
        lemma_index_of_from_bounds(s, '\n', from);
    }
}

proof fn lemma_index_of_from_bounds(s: Seq<char>, c: char, from: int)
    requires
        0 <= from <= s.len(),
    ensures
        index_of_from(s, c, from) matches Some(p) ==> from <= p < s.len() && s[p] == c,
    decreases s.len() - from,
{
    if from < s.len() && s[from] != c {
        lemma_index_of_from_bounds(s, c, from + 1);
    }
}

/// A raw post split into its metadata block and its content, at the first
/// two delimiters; `None` when fewer than two delimiters exist.
pub open spec fn split_spec(s: Seq<char>) -> Option<(Seq<char>, Seq<char>)> {
    match find_delim_spec(s, 0) {
        None => None,
        Some(p1) => {
            let e1 = p1 + dash_run(s, p1) + 1;
            match find_delim_spec(s, e1) {
                None => None,
                Some(p2) => {
                    let e2 = p2 + dash_run(s, p2) + 1;
                    Some((s.subrange(e1, p2), s.subrange(e2, s.len() as int)))
                },
            }
        },
    }
}

/// The metadata and content a raw post parses to, if it parses.
pub open spec fn raw_post_meta(s: Seq<char>) -> Option<(MetaV, Seq<char>)> {
    match split_spec(s) {
        None => None,
        Some((meta, content)) => {
            match parse_meta_from(meta, 0, MetaV { title: None, slug: None, date: None }) {
                None => None,
                Some(m) => Some((m, content)),
            }
        },
    }
}

/// A post's persisted identity: title, its URL-safe slug, and its date in
/// seconds since the epoch.
pub struct PostMetadata {
    pub title: String,
    pub slug: String,
    pub date: i64,
}

/// The domain entity assembled from an upload.
pub struct Post {
    pub metadata: PostMetadata,
    pub content: String,
}

/// The mathematical shadow of a post.
pub struct PostV {
    pub title: Seq<char>,
    pub slug: Seq<char>,
    pub date: i64,
    pub content: Seq<char>,
}

impl View for Post {
    type V = PostV;

    open spec fn view(&self) -> PostV {
        PostV {
            title: self.metadata.title@,
            slug: self.metadata.slug@,
            date: self.metadata.date,
            content: self.content@,
        }
    }
}

/// The metadata and content read from a raw post, with the fallback that
/// treats the whole input as content.
pub open spec fn parsed_raw(raw: Seq<char>) -> (MetaV, Seq<char>) {
    match raw_post_meta(raw) {
        Some(mc) => mc,
        None => (MetaV { title: None, slug: None, date: None }, raw),
    }
}

/// The post assembled from raw text: parsed metadata and content with every
/// gap defaulted, `id` naming the placeholder title and `now` the default
/// date.
pub open spec fn assembled_post(raw: Seq<char>, id: Seq<char>, now: i64) -> PostV {
    let m = parsed_raw(raw).0;
    let c = parsed_raw(raw).1;
    PostV {
        title: built_title(m.title, id),
        slug: slug_of(built_slug_src(m.slug, built_title(m.title, id))),
        date: match m.date {
            Some(d) => d,
            None => now,
        },
        content: built_content(Some(c)),
    }
}

/// Gathers the optional parts of a post before `build` fills the gaps.
pub struct PostBuilder {
    title: Option<String>,
    slug: Option<String>,
    date: Option<i64>,
    content: Option<String>,
}

/// Title after defaulting: a missing title becomes `Post <id>`.
pub open spec fn built_title(t: Option<Seq<char>>, id: Seq<char>) -> Seq<char> {
    match t {
        Some(x) => x,
        None => "Post "@ + id,
    }
}

/// What the slug is derived from: the given slug if any, else the title.
pub open spec fn built_slug_src(s: Option<Seq<char>>, title: Seq<char>) -> Seq<char> {
    match s {
        Some(x) => x,
        None => title,
    }
}

/// Content after defaulting: a missing or empty body becomes a placeholder.
pub open spec fn built_content(c: Option<Seq<char>>) -> Seq<char> {
    match c {
        Some(x) => if x.len() > 0 {
            x
        } else {
            "hello"@
        },
        None => "hello"@,
    }
}

impl PostBuilder {
    /// The title gathered so far.
    pub closed spec fn title_view(&self) -> Option<Seq<char>> {
        match self.title {
            Some(ref t) => Some(t@),
            None => None,
        }
    }

    /// The slug gathered so far.
    pub closed spec fn slug_view(&self) -> Option<Seq<char>> {
        match self.slug {
            Some(ref s) => Some(s@),
            None => None,
        }
    }

    /// The date gathered so far.
    pub closed spec fn date_view(&self) -> Option<i64> {
        self.date
    }

    /// The content gathered so far.
    pub closed spec fn content_view(&self) -> Option<Seq<char>> {
        match self.content {
            Some(ref c) => Some(c@),
            None => None,
        }
    }

    /// A builder with nothing gathered.
    pub fn new() -> (b: Self)
        ensures
            b.title_view() is None,
            b.slug_view() is None,
            b.date_view() is None,
            b.content_view() is None,
    {
        PostBuilder { title: None, slug: None, date: None, content: None }
    }

    /// Set the title.
    pub fn with_title(self, title: &str) -> (b: Self)
        ensures
            b.title_view() == Some(title@),
            b.slug_view() == self.slug_view(),
            b.date_view() == self.date_view(),
            b.content_view() == self.content_view(),
    {
        PostBuilder { title: Some(title.to_owned()), ..self }
    }

    /// Set the content.
    pub fn with_content(self, content: &str) -> (b: Self)
        ensures
            b.content_view() == Some(content@),
            b.title_view() == self.title_view(),
            b.slug_view() == self.slug_view(),
            b.date_view() == self.date_view(),
    {
        PostBuilder { content: Some(content.to_owned()), ..self }
    }

    /// Set the date, in seconds since the epoch.
    pub fn with_datetime(self, date: i64) -> (b: Self)
        ensures
            b.date_view() == Some(date),
            b.title_view() == self.title_view(),
            b.slug_view() == self.slug_view(),
            b.content_view() == self.content_view(),
    {
        PostBuilder { date: Some(date), ..self }
    }

    /// Split a raw post at its metadata delimiters and parse the block
    /// between them; fails when the delimiters are missing or the block is
    /// not metadata.
    pub fn try_from_raw_post(raw: &str) -> (r: Result<PostBuilder, String>)
        ensures
            match r {
                Ok(pb) => raw_post_meta(raw@) matches Some(mc) && pb.title_view() == mc.0.title
                    && pb.slug_view() == mc.0.slug && pb.date_view() == mc.0.date
                    && pb.content_view() == Some(mc.1),
                Err(_) => raw_post_meta(raw@) is None,
            },
    {
        let chars = str_chars(raw);
        let (p1, e1) = match find_delim(&chars, 0) {
            Some(x) => x,
            None => {
                return Err("metadata segmentation not found".to_owned());
            },
        };
        let (p2, e2) = match find_delim(&chars, e1) {
            Some(x) => x,
            None => {
                return Err("metadata segmentation not found".to_owned());
            },
        };
        let parsed = match parse_meta_block(raw, &chars, e1, p2) {
            Some(m) => m,
            None => {
                return Err("failed to parse metadata".to_owned());
            },
        };
        let (title, slug, date) = parsed;
        let content = substring_copy(raw, &chars, e2, chars.len());
        let pb = PostBuilder { title, slug, date, content: Some(content) };
        Ok(pb)
    }

    /// Parse a raw post; when it has no parsable metadata, the whole input
    /// becomes the content.
    pub fn from_raw_post(raw: &str) -> (pb: PostBuilder)
        ensures
            raw_post_meta(raw@) matches Some(mc) ==> pb.title_view() == mc.0.title
                && pb.slug_view() == mc.0.slug && pb.date_view() == mc.0.date && pb.content_view()
                == Some(mc.1),
            raw_post_meta(raw@) is None ==> pb.title_view() is None && pb.slug_view() is None
                && pb.date_view() is None && pb.content_view() == Some(raw@),
    {
        match Self::try_from_raw_post(raw) {
            Ok(pb) => pb,
            Err(_) => Self::new().with_content(raw),
        }
    }

    /// Construct the post, defaulting what was not gathered: the title to
    /// `Post <default_id>`, the slug to a slugified title (a gathered slug
    /// is slugified too), the date to `now`, and empty content to a
    /// placeholder.
    pub fn build(self, default_id: &str, now: i64) -> (p: Post)
        ensures
            p.metadata.title@ == built_title(self.title_view(), default_id@),
            p.metadata.slug@ == slug_of(
                built_slug_src(self.slug_view(), built_title(self.title_view(), default_id@)),
            ),
            p.metadata.date == (match self.date_view() {
                Some(d) => d,
                None => now,
            }),
            p.content@ == built_content(self.content_view()),
    {
        let title = match self.title {
            Some(t) => t,
            None => {
                proof {
                    reveal_strlit("Post ");
                }
                let mut t = "Post ".to_owned();
                t.append(default_id);
                t
            },
        };
        let slug = match self.slug {
            Some(x) => slugify(x.as_str()),
            None => slugify(title.as_str()),
        };
        let date = match self.date {
            Some(d) => d,
            None => now,
        };
        let content = match self.content {
            Some(c) => {
                if c.as_str().unicode_len() > 0 {
                    c
                } else {
                    proof {
                        reveal_strlit("hello");
                    }
                    "hello".to_owned()
                }
            },
            None => {
                proof {
                    reveal_strlit("hello");
                }
                "hello".to_owned()
            },
        };
        Post { metadata: PostMetadata { title, slug, date }, content }
    }
}

/// The front-matter shape this post renders to: delimiters around the
/// metadata lines, then the content.
pub open spec fn rendered_post(
    title: Seq<char>,
    slug: Seq<char>,
    date: i64,
    content: Seq<char>,
) -> Seq<char> {
    "---\ntitle: "@ + title + "\nslug: "@ + slug + "\ndate: "@ + rfc3339_of(date) + "\n---\n"@
        + content
}

impl Post {
    /// Render the post in its front-matter shape.  For a date outside the
    /// years 1 to 9999 the date line is left empty.
    pub fn to_display_string(&self) -> (r: String)
        ensures
            -62135596800 <= self.metadata.date <= 253402300799 ==> r@ == rendered_post(
                self.metadata.title@,
                self.metadata.slug@,
                self.metadata.date,
                self.content@,
            ),
    {
        let mut s = "---\ntitle: ".to_owned();
        s.append(self.metadata.title.as_str());
        s.append("\nslug: ");
        s.append(self.metadata.slug.as_str());
        s.append("\ndate: ");
        match format_rfc3339(self.metadata.date) {
            Some(d) => {
                s.append(d.as_str());
            },
            None => {},
        }
        s.append("\n---\n");
        s.append(self.content.as_str());
        s
    }
}

/// Span of the first metadata delimiter of `raw`: its start, and the index
/// just past its newline.
pub fn first_meta_delimiter(raw: &str) -> (r: Option<(usize, usize)>)
    ensures
        match r {
            Some((p, e)) => find_delim_spec(raw@, 0) == Some(p as int) && e == p + dash_run(
                raw@,
                p as int,
            ) + 1,
            None => find_delim_spec(raw@, 0) is None,
        },
{
    let chars = str_chars(raw);
    find_delim(&chars, 0)
}

proof fn lemma_dash_run_val(s: Seq<char>, i: int, k: int)
    requires
        0 <= i <= k <= s.len(),
        forall|j: int| i <= j < k ==> s[j] == '-',
        k == s.len() || s[k] != '-',
    ensures
        dash_run(s, i) == k - i,
    decreases k - i,
{
    if i < k {
        lemma_dash_run_val(s, i + 1, k);
    }
}

proof fn lemma_find_delim_found(s: Seq<char>, from: int, p: int)
    requires
        0 <= from <= p < s.len(),
        delim_at(s, p),
        forall|j: int| from <= j < p ==> !delim_at(s, j),
    ensures
        find_delim_spec(s, from) == Some(p),
    decreases p - from,
{
    if from < p {
        lemma_find_delim_found(s, from + 1, p);
    }
}

proof fn lemma_find_delim_none(s: Seq<char>, from: int)
    requires
        0 <= from <= s.len(),
        forall|j: int| from <= j < s.len() ==> !delim_at(s, j),
    ensures
        find_delim_spec(s, from) is None,
    decreases s.len() - from,
{
    if from < s.len() {
        lemma_find_delim_none(s, from + 1);
    }
}

/// Find the first delimiter at or after `from`: its start and the index
/// just past its newline.
fn find_delim(chars: &Vec<char>, from: usize) -> (r: Option<(usize, usize)>)
    requires
        from <= chars@.len(),
    ensures
        match r {
            Some((p, e)) => {
                &&& from <= p < chars@.len()
                &&& delim_at(chars@, p as int)
                &&& e == p + dash_run(chars@, p as int) + 1
                &&& e <= chars@.len()
                &&& find_delim_spec(chars@, from as int) == Some(p as int)
            },
            None => find_delim_spec(chars@, from as int) is None,
        },
{
    let n = chars.len();
    let mut i: usize = from;
    while i < n
        invariant
            from <= i <= n,
            n == chars@.len(),
            forall|j: int| from <= j < i ==> !delim_at(chars@, j),
        decreases n - i,
    {
        let mut k: usize = i;
        while k < n && chars[k] == '-'
            invariant
                i <= k <= n,
                n == chars@.len(),
                forall|j: int| i <= j < k ==> chars@[j] == '-',
            decreases n - k,
        {
            k = k + 1;
        }
        proof {
            lemma_dash_run_val(chars@, i as int, k as int);
        }
        if k - i >= 3 && k < n && chars[k] == '\n' {
            proof {
                assert(delim_at(chars@, i as int));
                lemma_find_delim_found(chars@, from as int, i as int);
            }
            return Some((i, k + 1));
        }
        proof {
            assert(!delim_at(chars@, i as int));
        }
        i = i + 1;
    }
    proof {
        lemma_find_delim_none(chars@, from as int);
    }
    None
}

/// Parse the metadata block `chars[ms..me]` into its gathered fields;
/// `None` when some line is not metadata.
fn parse_meta_block(raw: &str, chars: &Vec<char>, ms: usize, me: usize) -> (r: Option<
    (Option<String>, Option<String>, Option<i64>),
>)
    requires
        chars@ == raw@,
        ms <= me <= raw@.len(),
    ensures
        ({
            let block = chars@.subrange(ms as int, me as int);
            let init = MetaV { title: None, slug: None, date: None };
            match r {
                Some(m) => parse_meta_from(block, 0, init) == Some(
                    MetaV { title: opt_view(m.0), slug: opt_view(m.1), date: m.2 },
                ),
                None => parse_meta_from(block, 0, init) is None,
            }
        }),
{
    let ghost block = chars@.subrange(ms as int, me as int);
    let mut title: Option<String> = None;
    let mut slug: Option<String> = None;
    let mut date: Option<i64> = None;
    let mut pos: usize = ms;
    while pos < me
        invariant
            ms <= pos <= me <= chars@.len(),
            chars@ == raw@,
            block == chars@.subrange(ms as int, me as int),
            parse_meta_from(block, 0, MetaV { title: None, slug: None, date: None })
                == parse_meta_from(
                block,
                pos - ms,
                MetaV { title: opt_view(title), slug: opt_view(slug), date },
            ),
        decreases me - pos,
    {
        let ghost acc0 = MetaV { title: opt_view(title), slug: opt_view(slug), date };
        let le = match find_char_in(chars, '\n', pos, me) {
            Some(p) => {
                proof {
                    lemma_index_of_from_found(block, '\n', pos - ms, p - ms);
                }
                p
            },
            None => {
                proof {
                    lemma_index_of_from_none(block, '\n', pos - ms);
                }
                me
            },
        };
        let ghost line = block.subrange(pos - ms, le - ms);
        proof {
            assert(line =~= chars@.subrange(pos as int, le as int));
        }
        if !range_is_blank(chars, pos, le) {
            let colon = match find_char_in(chars, ':', pos, le) {
                Some(p) => {
                    proof {
                        lemma_index_of_from_found(line, ':', 0, p - pos);
                    }
                    p
                },
                None => {
                    proof {
                        lemma_index_of_from_none(line, ':', 0);
                        assert(parse_meta_line(line, acc0) is None);
                    }
                    return None;
                },
            };
            proof {
                assert(line.take(colon - pos) =~= chars@.subrange(pos as int, colon as int));
                assert(line.skip(colon - pos + 1) =~= chars@.subrange(colon + 1, le as int));
            }
            let (ka, kb) = trim_bounds(chars, pos, colon);
            let (va0, vb0) = trim_bounds(chars, colon + 1, le);
            let quoted = vb0 - va0 >= 2 && ((chars[va0] == '"' && chars[vb0 - 1] == '"') || (
            chars[va0] == '\'' && chars[vb0 - 1] == '\''));
            let (va, vb) = if quoted {
                (va0 + 1, vb0 - 1)
            } else {
                (va0, vb0)
            };
            proof {
                let tv = trim_spec(line.skip(colon - pos + 1));
                assert(tv == chars@.subrange(va0 as int, vb0 as int));
                if quoted {
                    assert(tv.len() >= 2 && ((tv.first() == '"' && tv.last() == '"') || (
                    tv.first() == '\'' && tv.last() == '\'')));
                    assert(unquote_spec(tv) =~= chars@.subrange(va as int, vb as int));
                } else {
                    assert(unquote_spec(tv) == tv);
                }
            }
            let value = substring_copy(raw, chars, va, vb);
            if range_eq_str(chars, ka, kb, "title") {
                title = Some(value);
            } else if range_eq_str(chars, ka, kb, "slug") {
                slug = Some(value);
            } else if range_eq_str(chars, ka, kb, "date") {
                match parse_rfc3339_secs(value.as_str()) {
                    Some(t) => {
                        date = Some(t);
                    },
                    None => {
                        proof {
                            assert(parse_meta_line(line, acc0) is None);
                        }
                        return None;
                    },
                }
            }
        }
        let next = if le < me {
            le + 1
        } else {
            me
        };
        proof {
            let accn = MetaV { title: opt_view(title), slug: opt_view(slug), date };
            assert(parse_meta_line(line, acc0) == Some(accn));
            if le < me {
                assert(parse_meta_from(block, pos - ms, acc0) == parse_meta_from(
                    block,
                    le + 1 - ms,
                    accn,
                ));
            } else {
                assert(parse_meta_from(block, pos - ms, acc0) == Some(accn));
                assert(parse_meta_from(block, next - ms, accn) == Some(accn));
            }
        }
        pos = next;
    }
    proof {
        assert(parse_meta_from(block, me - ms, MetaV { title: opt_view(title), slug: opt_view(slug), date })
            == Some(MetaV { title: opt_view(title), slug: opt_view(slug), date }));
    }
    Some((title, slug, date))
}

/// The characters of an optionally present string.
pub open spec fn opt_view(o: Option<String>) -> Option<Seq<char>> {
    match o {
        Some(s) => Some(s@),
        None => None,
    }
}

/// Whether the characters `s[from..to]` spell exactly `lit`.
fn range_eq_str(s: &Vec<char>, from: usize, to: usize, lit: &str) -> (r: bool)
    requires
        from <= to <= s@.len(),
    ensures
        r == (s@.subrange(from as int, to as int) == lit@),
{
    let m = lit.unicode_len();
    if to - from != m {
        proof {
            assert(s@.subrange(from as int, to as int).len() != lit@.len());
        }
        return false;
    }
    let mut i: usize = 0;
    while i < m
        invariant
            i <= m,
            from <= to <= s@.len(),
            m == lit@.len(),
            to - from == m,
            forall|j: int| 0 <= j < i ==> s@[from + j] == lit@[j],
        decreases m - i,
    {
        if s[from + i] != lit.get_char(i) {
            proof {
                assert(s@.subrange(from as int, to as int)[i as int] != lit@[i as int]);
            }
            return false;
        }
        i = i + 1;
    }
    proof {
        assert(s@.subrange(from as int, to as int) =~= lit@);
    }
    true
}

} // verus!
