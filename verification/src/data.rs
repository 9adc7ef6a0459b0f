//! The records of the store: a post, its header, and the calendar date.

use crate::error::{ApplicationError, ApplicationErrorView};
use crate::text::{clone_strings, from_chars, to_chars};
use crate::transform::{display_content, transform};
use chrono::{Datelike, NaiveDate};
use std::str::FromStr;
use vstd::prelude::*;

verus! {

/// A calendar date.
#[derive(Clone, Copy, Debug, PartialEq, Eq, Structural)]
pub struct Date {
    pub year: i32,
    pub month: u32,
    pub day: u32,
}

/// Membership of a post in a series, with its episode number.
#[derive(Debug, PartialEq, Eq)]
pub struct Series {
    pub title: String,
    pub ep: u8,
}

/// The header of a post.
#[derive(Debug, PartialEq, Eq)]
pub struct Markdown {
    pub title: String,
    pub slug: String,
    pub tags: Vec<String>,
    pub date: Date,
    pub series: Option<Series>,
}

/// A post: its header and its display content.
#[derive(Debug, PartialEq, Eq)]
pub struct Post {
    pub data: String,
    pub markdown: Markdown,
}

/// What a `Series` holds.
pub struct SeriesView {
    pub title: Seq<char>,
    pub ep: u8,
}

/// What a `Markdown` holds.
pub struct MarkdownView {
    pub title: Seq<char>,
    pub slug: Seq<char>,
    pub tags: Seq<Seq<char>>,
    pub date: Date,
    pub series: Option<SeriesView>,
}

/// What a `Post` holds.
pub struct PostView {
    pub data: Seq<char>,
    pub markdown: MarkdownView,
}

impl View for Series {
    type V = SeriesView;

    open spec fn view(&self) -> SeriesView {
        SeriesView { title: self.title@, ep: self.ep }
    }
}

impl View for Markdown {
    type V = MarkdownView;

    open spec fn view(&self) -> MarkdownView {
        MarkdownView {
            title: self.title@,
            slug: self.slug@,
            tags: self.tags.deep_view(),
            date: self.date,
            series: match self.series {
                Some(series) => Some(series@),
                None => None,
            },
        }
    }
}

impl View for Post {
    type V = PostView;

    open spec fn view(&self) -> PostView {
        PostView { data: self.data@, markdown: self.markdown@ }
    }
}

impl Clone for Series {
    fn clone(&self) -> (copy: Series)
        ensures
            copy@ == self@,
    {
        Series { title: self.title.clone(), ep: self.ep }
    }
}

impl Clone for Markdown {
    fn clone(&self) -> (copy: Markdown)
        ensures
            copy@ == self@,
    {
        let series = match &self.series {
            Some(series) => Some(series.clone()),
            None => None,
        };
        Markdown {
            title: self.title.clone(),
            slug: self.slug.clone(),
            tags: clone_strings(&self.tags),
            date: self.date,
            series,
        }
    }
}

impl Clone for Post {
    fn clone(&self) -> (copy: Post)
        ensures
            copy@ == self@,
    {
        Post { data: self.data.clone(), markdown: self.markdown.clone() }
    }
}

/// What a list of posts holds.
pub open spec fn post_views(posts: Seq<Post>) -> Seq<PostView> {
    posts.map_values(|post: Post| post@)
}

/// A header as it was decoded from the front matter, before it is known
/// to be complete: a field that the front matter lacks is `None`, and the
/// date is still text.
#[derive(Debug, PartialEq, Eq)]
pub struct FrontMatter {
    pub title: Option<String>,
    pub slug: Option<String>,
    pub tags: Option<Vec<String>>,
    pub date: Option<String>,
    pub series: Option<Series>,
}

/// What a `FrontMatter` holds.
pub struct FrontMatterView {
    pub title: Option<Seq<char>>,
    pub slug: Option<Seq<char>>,
    pub tags: Option<Seq<Seq<char>>>,
    pub date: Option<Seq<char>>,
    pub series: Option<SeriesView>,
}

impl View for FrontMatter {
    type V = FrontMatterView;

    open spec fn view(&self) -> FrontMatterView {
        FrontMatterView {
            title: match self.title {
                Some(title) => Some(title@),
                None => None,
            },
            slug: match self.slug {
                Some(slug) => Some(slug@),
                None => None,
            },
            tags: match self.tags {
                Some(tags) => Some(tags.deep_view()),
                None => None,
            },
            date: match self.date {
                Some(date) => Some(date@),
                None => None,
            },
            series: match self.series {
                Some(series) => Some(series@),
                None => None,
            },
        }
    }
}

/// A result, with its value or its error taken by its view.
pub open spec fn result_view<T: View, E: View>(result: Result<T, E>) -> Result<T::V, E::V> {
    match result {
        Ok(value) => Ok(value@),
        Err(error) => Err(error@),
    }
}

/// The year, month and day that chrono reads from a text with
/// `NaiveDate::from_str`; `None` where chrono rejects the text.
pub uninterp spec fn calendar_date(text: Seq<char>) -> Option<(i32, u32, u32)>;

/// Calls chrono's `NaiveDate::from_str`, which reads a date written as
/// year, month and day with hyphens between them, and takes the year, month
/// and day of the date it returns with the methods of `Datelike`. Nothing
/// is proved of which texts chrono accepts; the contract names the result,
/// and says of it what chrono documents of every date: its month is from 1
/// to 12 and its day from 1 to 31.
#[verifier::external_body]
fn date_from_str(text: &str) -> (date: Option<(i32, u32, u32)>)
    ensures
        date == calendar_date(text@),
        date matches Some((_, month, day)) ==> 1 <= month <= 12 && 1 <= day <= 31,
{
    match NaiveDate::from_str(text) {
        Ok(date) => Some((date.year(), date.month(), date.day())),
        Err(_) => None,
    }
}

/// The date with the given year, month and day.
pub open spec fn date_of(parts: Option<(i32, u32, u32)>) -> Option<Date> {
    match parts {
        Some((year, month, day)) => Some(Date { year, month, day }),
        None => None,
    }
}

impl Date {
    /// The month is one of the twelve, and the day is from 1 to 31.
    pub open spec fn in_range(self) -> bool {
        1 <= self.month <= 12 && 1 <= self.day <= 31
    }

    /// Reads a calendar date from its text, `None` where the text is no
    /// date. A date that was read has a month and a day in range.
    pub fn parse(text: &str) -> (date: Option<Date>)
        ensures
            date == date_of(calendar_date(text@)),
            date matches Some(read) ==> read.in_range(),
    {
        match date_from_str(text) {
            Some((year, month, day)) => Some(Date { year, month, day }),
            None => None,
        }
    }
}

/// The error of a document at `path` that cannot be parsed, for the given
/// reason.
pub open spec fn parsing_error(path: Seq<char>, reason: Seq<char>) -> ApplicationErrorView {
    ApplicationErrorView::ParsingError { path, reason }
}

/// The header that a decoded front matter gives, where `date` is what its
/// date text was read as. The title, the slug, the tags and the date are
/// required, and are asked for in this order; then the date text has to be
/// a calendar date.
pub open spec fn header_of(path: Seq<char>, front: FrontMatterView, date: Option<Date>) -> Result<
    MarkdownView,
    ApplicationErrorView,
> {
    if front.title is None {
        Err(parsing_error(path, "missing field `title`"@))
    } else if front.slug is None {
        Err(parsing_error(path, "missing field `slug`"@))
    } else if front.tags is None {
        Err(parsing_error(path, "missing field `tags`"@))
    } else if front.date is None {
        Err(parsing_error(path, "missing field `date`"@))
    } else if date is None {
        Err(parsing_error(path, "date is not a calendar date"@))
    } else {
        Ok(
            MarkdownView {
                title: front.title->0,
                slug: front.slug->0,
                tags: front.tags->0,
                date: date->0,
                series: front.series,
            },
        )
    }
}

/// What the date text of a front matter is read as; `None` also where the
/// front matter holds no date.
pub open spec fn date_read(front: FrontMatterView) -> Option<Date> {
    match front.date {
        Some(text) => date_of(calendar_date(text)),
        None => None,
    }
}

fn parsing_failure(path: &str, reason: &str) -> (error: ApplicationError)
    ensures
        error@ == parsing_error(path@, reason@),
{
    ApplicationError::ParsingError { path: path.to_owned(), reason: reason.to_owned() }
}

/// Makes the header of a post from a decoded front matter and from what its
/// date text was read as.
pub fn assemble_header(path: &str, front: FrontMatter, date: Option<Date>) -> (result: Result<
    Markdown,
    ApplicationError,
>)
    ensures
        result_view(result) == header_of(path@, front@, date),
{
    let FrontMatter { title, slug, tags, date: date_text, series } = front;
    let title = match title {
        Some(title) => title,
        None => {
            return Err(parsing_failure(path, "missing field `title`"));
        },
    };
    let slug = match slug {
        Some(slug) => slug,
        None => {
            return Err(parsing_failure(path, "missing field `slug`"));
        },
    };
    let tags = match tags {
        Some(tags) => tags,
        None => {
            return Err(parsing_failure(path, "missing field `tags`"));
        },
    };
    if date_text.is_none() {
        return Err(parsing_failure(path, "missing field `date`"));
    }
    let date = match date {
        Some(date) => date,
        None => {
            return Err(parsing_failure(path, "date is not a calendar date"));
        },
    };
    Ok(Markdown { title, slug, tags, date, series })
}

/// Checks a decoded front matter and makes the header of a post from it:
/// its date text is read as a calendar date, and the header is assembled.
pub fn decode_header(path: &str, front: FrontMatter) -> (result: Result<Markdown, ApplicationError>)
    ensures
        result_view(result) == header_of(path@, front@, date_read(front@)),
        result matches Ok(markdown) ==> markdown.date.in_range(),
{
    let date = match &front.date {
        Some(text) => Date::parse(text.as_str()),
        None => None,
    };
    assemble_header(path, front, date)
}

/// Three hyphens stand at position `at` of `s`.
pub open spec fn marker_at(s: Seq<char>, at: int) -> bool {
    &&& 0 <= at
    &&& at + 3 <= s.len()
    &&& s[at] == '-'
    &&& s[at + 1] == '-'
    &&& s[at + 2] == '-'
}

/// The first position at or after `from` at which the marker stands, or the
/// length of `s` where there is none.
pub open spec fn find_marker(s: Seq<char>, from: int) -> int
    decreases s.len() - from,
{
    if from < 0 || from + 3 > s.len() {
        s.len() as int
    } else if marker_at(s, from) {
        from
    } else {
        find_marker(s, from + 1)
    }
}

/// Where the front matter of a document starts: behind the first marker.
pub open spec fn front_matter_start(content: Seq<char>) -> int {
    find_marker(content, 0) + 3
}

/// Where the front matter of a document ends: at the next marker behind
/// its start, or at the end of the document where no marker follows.
pub open spec fn front_matter_end(content: Seq<char>) -> int {
    find_marker(content, front_matter_start(content))
}

/// The document holds a marker, and so a front matter.
pub open spec fn has_front_matter(content: Seq<char>) -> bool {
    find_marker(content, 0) < content.len()
}

/// The document holds a second marker, and so a body.
pub open spec fn has_body(content: Seq<char>) -> bool {
    has_front_matter(content) && front_matter_end(content) < content.len()
}

/// The front matter of a document: the text between the first marker and
/// the second.
pub open spec fn front_matter_of(content: Seq<char>) -> Seq<char> {
    content.subrange(front_matter_start(content), front_matter_end(content))
}

/// The body of a document: all text behind the second marker.
pub open spec fn body_of(content: Seq<char>) -> Seq<char> {
    content.subrange(front_matter_end(content) + 3, content.len() as int)
}

/// The first position at or after `from` at which the marker stands.
fn position_of_marker(chars: &Vec<char>, from: usize) -> (at: usize)
    requires
        from <= chars.len(),
    ensures
        at == find_marker(chars@, from as int),
        from <= at <= chars.len(),
        at < chars.len() ==> at + 3 <= chars.len(),
{
    let n = chars.len();
    let mut at: usize = from;
    while at < n && n - at >= 3
        invariant
            n == chars.len(),
            from <= at <= n,
            find_marker(chars@, at as int) == find_marker(chars@, from as int),
        decreases n - at,
    {
        if chars[at] == '-' && chars[at + 1] == '-' && chars[at + 2] == '-' {
            return at;
        }
        at += 1;
    }
    n
}

/// Why a document that holds no marker cannot be parsed.
pub const MISSING_FRONT_MATTER: &'static str =
    "Missing YAML frontmatter (expected content between --- markers)";

/// Why a document that holds one marker only cannot be parsed.
pub const MISSING_BODY: &'static str = "Missing markdown content after frontmatter";

/// The error of a document that holds no marker.
pub open spec fn missing_front_matter(path: Seq<char>) -> ApplicationErrorView {
    parsing_error(path, MISSING_FRONT_MATTER@)
}

/// The error of a document that holds one marker only.
pub open spec fn missing_body(path: Seq<char>) -> ApplicationErrorView {
    parsing_error(path, MISSING_BODY@)
}

/// The front matter of a document, or the error of a document without one.
pub open spec fn front_matter_found(path: Seq<char>, content: Seq<char>) -> Result<
    Seq<char>,
    ApplicationErrorView,
> {
    if has_front_matter(content) {
        Ok(front_matter_of(content))
    } else {
        Err(missing_front_matter(path))
    }
}

/// The body of a document, or the error of a document without one.
pub open spec fn body_found(path: Seq<char>, content: Seq<char>) -> Result<
    Seq<char>,
    ApplicationErrorView,
> {
    if has_body(content) {
        Ok(body_of(content))
    } else {
        Err(missing_body(path))
    }
}

/// Takes the front matter out of a document: the text between its first
/// marker of three hyphens and its second, or all text behind the first
/// where there is no second. A document without a marker is an error.
pub fn front_matter(path: &str, content: &str) -> (result: Result<String, ApplicationError>)
    ensures
        result_view(result) == front_matter_found(path@, content@),
{
    let chars = to_chars(content);
    let first = position_of_marker(&chars, 0);
    if first >= chars.len() {
        return Err(parsing_failure(path, MISSING_FRONT_MATTER));
    }
    let second = position_of_marker(&chars, first + 3);
    Ok(from_chars(&chars, first + 3, second))
}

/// Takes the body out of a document: all text behind its second marker of
/// three hyphens. A document with fewer than two markers is an error.
pub fn body(path: &str, content: &str) -> (result: Result<String, ApplicationError>)
    ensures
        result_view(result) == body_found(path@, content@),
{
    let chars = to_chars(content);
    let first = position_of_marker(&chars, 0);
    if first >= chars.len() {
        return Err(parsing_failure(path, MISSING_BODY));
    }
    let second = position_of_marker(&chars, first + 3);
    if second >= chars.len() {
        return Err(parsing_failure(path, MISSING_BODY));
    }
    Ok(from_chars(&chars, second + 3, chars.len()))
}

/// The post that a document gives, where `front` is its front matter as
/// decoded. A document without a marker is an error; then the header is
/// checked; then a document without a body is an error; and the display
/// content of the post is made of the body.
pub open spec fn parsed(path: Seq<char>, content: Seq<char>, front: FrontMatterView) -> Result<
    PostView,
    ApplicationErrorView,
> {
    if !has_front_matter(content) {
        Err(missing_front_matter(path))
    } else {
        match header_of(path, front, date_read(front)) {
            Err(error) => Err(error),
            Ok(markdown) => if !has_body(content) {
                Err(missing_body(path))
            } else {
                Ok(PostView { data: display_content(body_of(content)), markdown })
            },
        }
    }
}

/// Makes a post of the document `content` that was read at `path`, given
/// its front matter as decoded. Every failure is a `ParsingError`, and no
/// post is made of a document that lacks a marker, a required field of the
/// header, a well-formed date or a body.
pub fn parse_to_data(path: &str, content: &str, front: FrontMatter) -> (result: Result<
    Post,
    ApplicationError,
>)
    ensures
        result_view(result) == parsed(path@, content@, front@),
        result matches Err(error) ==> error is ParsingError,
        result matches Ok(post) ==> post.markdown.date.in_range(),
        !has_front_matter(content@) ==> result is Err,
{
    let chars = to_chars(content);
    let first = position_of_marker(&chars, 0);
    if first >= chars.len() {
        return Err(parsing_failure(path, MISSING_FRONT_MATTER));
    }
    let markdown = match decode_header(path, front) {
        Ok(markdown) => markdown,
        Err(error) => {
            return Err(error);
        },
    };
    let second = position_of_marker(&chars, first + 3);
    if second >= chars.len() {
        return Err(parsing_failure(path, MISSING_BODY));
    }
    let text = from_chars(&chars, second + 3, chars.len());
    let data = transform(text.as_str());
    Ok(Post { data, markdown })
}

} // verus!
