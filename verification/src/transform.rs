//! The content transformer: relative link targets in a body are resolved
//! into the static-resource directory, and the body is rendered to HTML.

use crate::text::to_chars;
use pulldown_cmark::{html, Options, Parser};
use vstd::prelude::*;

verus! {

/// The directory under which the resources of the posts are served.
pub open spec fn static_prefix() -> Seq<char> {
    "/static/misc/"@
}

/// The first position at or after `from` that holds `c`, or the length of
/// `s` where there is none.
pub open spec fn find_char(s: Seq<char>, c: char, from: int) -> int
    decreases s.len() - from,
{
    if from < 0 || from >= s.len() {
        s.len() as int
    } else if s[from] == c {
        from
    } else {
        find_char(s, c, from + 1)
    }
}

/// Where the label of a link that opens at `start` would end: the first `]`
/// after the opening bracket.
pub open spec fn label_end(s: Seq<char>, start: int) -> int {
    find_char(s, ']', start + 1)
}

/// Where the target of a link that opens at `start` would end: the first `)`
/// after the parenthesis that follows the label.
pub open spec fn target_end(s: Seq<char>, start: int) -> int {
    find_char(s, ')', label_end(s, start) + 2)
}

/// A link `[label](target)` opens at `start`: a `[`, a label of one or more
/// characters other than `]`, then `](`, a target of one or more characters
/// other than `)`, and a `)`.
pub open spec fn is_link(s: Seq<char>, start: int) -> bool {
    let j = label_end(s, start);
    let k = target_end(s, start);
    &&& 0 <= start < s.len()
    &&& s[start] == '['
    &&& start + 1 < j
    &&& j + 1 < s.len()
    &&& s[j + 1] == '('
    &&& j + 2 < k
    &&& k < s.len()
}

/// The first position at or after `from` where a link opens, or the length
/// of `s` where there is none.
pub open spec fn next_link(s: Seq<char>, from: int) -> int
    decreases s.len() - from,
{
    if from < 0 || from >= s.len() {
        s.len() as int
    } else if is_link(s, from) {
        from
    } else {
        next_link(s, from + 1)
    }
}

/// A letter of the alphabet, small or capital.
pub open spec fn is_letter(c: char) -> bool {
    ('a' <= c && c <= 'z') || ('A' <= c && c <= 'Z')
}

/// A character that a scheme can hold behind its first: a letter, a digit,
/// `+`, `-` or `.`.
pub open spec fn is_scheme_char(c: char) -> bool {
    is_letter(c) || ('0' <= c && c <= '9') || c == '+' || c == '-' || c == '.'
}

/// `target` starts with a scheme whose colon stands at `colon`: a letter,
/// then letters, digits, `+`, `-` or `.`, then the colon.
pub open spec fn scheme_ends_at(target: Seq<char>, colon: int) -> bool {
    &&& 1 <= colon < target.len()
    &&& is_letter(target[0])
    &&& forall|i: int| 1 <= i < colon ==> is_scheme_char(#[trigger] target[i])
    &&& target[colon] == ':'
}

/// `target` starts with a URI scheme, as `https:` or `mailto:`.
pub open spec fn has_scheme(target: Seq<char>) -> bool {
    exists|colon: int| scheme_ends_at(target, colon)
}

/// A target is absolute where it starts with a URI scheme or with the path
/// separator `/`; every other target is relative.
pub open spec fn is_absolute(target: Seq<char>) -> bool {
    has_scheme(target) || (target.len() > 0 && target[0] == '/')
}

/// The target that a link is given: an absolute one is kept, a relative one
/// is placed under the static prefix.
pub open spec fn resolved_target(target: Seq<char>) -> Seq<char> {
    if is_absolute(target) {
        target
    } else {
        static_prefix() + target
    }
}

/// The text of a link with the given label and target.
pub open spec fn link_text(label: Seq<char>, target: Seq<char>) -> Seq<char> {
    seq!['['] + label + seq![']', '('] + target + seq![')']
}

/// The part of `s` from `from` on, with the target of every link resolved.
/// Links are taken from left to right and do not overlap; the text between
/// them is kept as it is.
pub open spec fn resolved_from(s: Seq<char>, from: int) -> Seq<char>
    decreases s.len() - from,
    via resolved_from_decreases
{
    if from < 0 || from > s.len() {
        Seq::empty()
    } else if next_link(s, from) >= s.len() {
        s.subrange(from, s.len() as int)
    } else {
        let i = next_link(s, from);
        let j = label_end(s, i);
        let k = target_end(s, i);
        s.subrange(from, i) + link_text(
            s.subrange(i + 1, j),
            resolved_target(s.subrange(j + 2, k)),
        ) + resolved_from(s, k + 1)
    }
}

#[via_fn]
proof fn resolved_from_decreases(s: Seq<char>, from: int) {
    lemma_next_link_bounds(s, from);
}

/// The body `s` with the target of every link resolved.
pub open spec fn relative_paths_replaced(s: Seq<char>) -> Seq<char> {
    resolved_from(s, 0)
}

/// The extension bit of the renderer for tables.
pub const ENABLE_TABLES: u32 = 2;

/// The extension bit of the renderer for footnotes.
pub const ENABLE_FOOTNOTES: u32 = 4;

/// The extension bit of the renderer for strikethrough.
pub const ENABLE_STRIKETHROUGH: u32 = 8;

/// The extension bit of the renderer for task lists.
pub const ENABLE_TASKLISTS: u32 = 16;

/// The extensions under which bodies are rendered: strikethrough, tables,
/// footnotes and task lists.
pub const EXTENSIONS: u32 = ENABLE_STRIKETHROUGH | ENABLE_TABLES | ENABLE_FOOTNOTES
    | ENABLE_TASKLISTS;

/// The HTML that pulldown-cmark renders for a markdown text, with the
/// extensions whose bits are set in `extensions` switched on.
pub uninterp spec fn rendered_html(markdown: Seq<char>, extensions: u32) -> Seq<char>;

/// The display content of a body: its relative paths replaced, then
/// rendered to HTML.
pub open spec fn display_content(body: Seq<char>) -> Seq<char> {
    rendered_html(relative_paths_replaced(body), EXTENSIONS)
}

proof fn lemma_find_char_bounds(s: Seq<char>, c: char, from: int)
    ensures
        find_char(s, c, from) <= s.len(),
        0 <= from <= s.len() ==> from <= find_char(s, c, from),
        find_char(s, c, from) < s.len() ==> s[find_char(s, c, from)] == c,
        forall|i: int| 0 <= from <= i < find_char(s, c, from) ==> s[i] != c,
    decreases s.len() - from,
{
    if 0 <= from < s.len() && s[from] != c {
        lemma_find_char_bounds(s, c, from + 1);
    }
}

/// A search that starts between the start of another and what that one
/// finds, finds the same.
proof fn lemma_find_char_later(s: Seq<char>, c: char, from: int, later: int)
    requires
        0 <= from <= later <= find_char(s, c, from),
    ensures
        find_char(s, c, later) == find_char(s, c, from),
    decreases later - from,
{
    lemma_find_char_bounds(s, c, from);
    if from < later {
        lemma_find_char_later(s, c, from + 1, later);
    }
}

/// A search finds the first position that holds the character.
proof fn lemma_find_char_is(s: Seq<char>, c: char, from: int, at: int)
    requires
        0 <= from <= at < s.len(),
        s[at] == c,
        forall|i: int| from <= i < at ==> s[i] != c,
    ensures
        find_char(s, c, from) == at,
    decreases at - from,
{
    if from < at {
        lemma_find_char_is(s, c, from + 1, at);
    }
}

proof fn lemma_next_link_bounds(s: Seq<char>, from: int)
    ensures
        next_link(s, from) <= s.len(),
        0 <= from <= s.len() ==> from <= next_link(s, from),
        next_link(s, from) < s.len() ==> is_link(s, next_link(s, from)),
    decreases s.len() - from,
{
    if 0 <= from < s.len() && !is_link(s, from) {
        lemma_next_link_bounds(s, from + 1);
    }
}

/// Where no link opens at `at`, the character there is kept.
proof fn lemma_resolved_skip(s: Seq<char>, at: int)
    requires
        0 <= at < s.len(),
        !is_link(s, at),
    ensures
        resolved_from(s, at) == seq![s[at]] + resolved_from(s, at + 1),
{
    lemma_next_link_bounds(s, at + 1);
    let i = next_link(s, at);
    assert(i == next_link(s, at + 1));
    if i >= s.len() {
        assert(s.subrange(at, s.len() as int) =~= seq![s[at]] + s.subrange(
            at + 1,
            s.len() as int,
        ));
    } else {
        let j = label_end(s, i);
        let k = target_end(s, i);
        let link = link_text(s.subrange(i + 1, j), resolved_target(s.subrange(j + 2, k)));
        let rest = resolved_from(s, k + 1);
        assert(s.subrange(at, i) =~= seq![s[at]] + s.subrange(at + 1, i));
        assert(s.subrange(at, i) + link + rest =~= seq![s[at]] + (s.subrange(at + 1, i) + link
            + rest));
    }
}

/// Where no link opens between `from` and `to`, the text between them is
/// kept.
proof fn lemma_resolved_skip_range(s: Seq<char>, from: int, to: int)
    requires
        0 <= from <= to <= s.len(),
        forall|i: int| from <= i < to ==> !is_link(s, i),
    ensures
        resolved_from(s, from) == s.subrange(from, to) + resolved_from(s, to),
    decreases to - from,
{
    if from == to {
        assert(s.subrange(from, to) + resolved_from(s, to) =~= resolved_from(s, to));
    } else {
        lemma_resolved_skip(s, from);
        lemma_resolved_skip_range(s, from + 1, to);
        assert(seq![s[from]] + (s.subrange(from + 1, to) + resolved_from(s, to)) =~= s.subrange(
            from,
            to,
        ) + resolved_from(s, to));
    }
}

/// Where a link opens at `at`, it is resolved, and the text goes on behind
/// its closing parenthesis.
proof fn lemma_resolved_link(s: Seq<char>, at: int)
    requires
        is_link(s, at),
    ensures
        resolved_from(s, at) == link_text(
            s.subrange(at + 1, label_end(s, at)),
            resolved_target(s.subrange(label_end(s, at) + 2, target_end(s, at))),
        ) + resolved_from(s, target_end(s, at) + 1),
{
    let j = label_end(s, at);
    let k = target_end(s, at);
    let link = link_text(s.subrange(at + 1, j), resolved_target(s.subrange(j + 2, k)));
    assert(next_link(s, at) == at);
    assert(s.subrange(at, at) + link + resolved_from(s, k + 1) =~= link + resolved_from(s, k + 1));
}

/// Where an opening bracket at `start` finds no closing bracket behind it,
/// or finds behind its label an opening parenthesis but no closing one, no
/// link opens at `start` or anywhere behind it.
proof fn lemma_no_link_behind(s: Seq<char>, start: int, at: int)
    requires
        0 <= start <= at < s.len(),
        label_end(s, start) >= s.len() || target_end(s, start) >= s.len(),
    ensures
        !is_link(s, at),
{
    let j = label_end(s, start);
    lemma_find_char_bounds(s, ']', start + 1);
    lemma_find_char_bounds(s, ']', at + 1);
    lemma_find_char_bounds(s, ')', j + 2);
    lemma_find_char_bounds(s, ')', label_end(s, at) + 2);
    if is_link(s, at) {
        let end = label_end(s, at);
        let close = target_end(s, at);
        if j >= s.len() {
            assert(s[end] == ']');
        } else {
            if at < j {
                lemma_find_char_later(s, ']', start + 1, at + 1);
            } else {
                assert(s[close] == ')');
                assert(j + 2 <= close);
            }
        }
    }
}

/// Where the label that opens at `start` ends at a closing bracket that no
/// link follows on, no link opens at `at` between the two brackets, nor at
/// the closing one.
proof fn lemma_no_link_within(s: Seq<char>, start: int, at: int)
    requires
        0 <= start <= at <= label_end(s, start) < s.len(),
        !is_link(s, start),
        s[start] == '[',
    ensures
        !is_link(s, at),
{
    let j = label_end(s, start);
    lemma_find_char_bounds(s, ']', start + 1);
    if at < j {
        lemma_find_char_later(s, ']', start + 1, at + 1);
    }
}

/// A text that is one link, with a label without a closing bracket and a
/// target without a closing parenthesis, is replaced by the link with its
/// target resolved: a relative target is put under the static prefix, and
/// an absolute one stays as it is.
pub proof fn law_link_resolved(label: Seq<char>, target: Seq<char>)
    requires
        label.len() > 0,
        target.len() > 0,
        !label.contains(']'),
        !target.contains(')'),
    ensures
        relative_paths_replaced(link_text(label, target)) == link_text(
            label,
            resolved_target(target),
        ),
        is_absolute(target) ==> relative_paths_replaced(link_text(label, target)) == link_text(
            label,
            target,
        ),
        !is_absolute(target) ==> relative_paths_replaced(link_text(label, target)) == link_text(
            label,
            static_prefix() + target,
        ),
{
    let s = link_text(label, target);
    let j = label.len() as int + 1;
    let k = j + 2 + target.len() as int;
    assert(s.len() == k + 1);
    assert(s[0] == '[');
    assert(s[j] == ']');
    assert(s[j + 1] == '(');
    assert(s[k] == ')');
    assert forall|i: int| 1 <= i < j implies s[i] != ']' by {
        assert(s[i] == label[i - 1]);
        assert(label.contains(label[i - 1]));
    }
    assert forall|i: int| j + 2 <= i < k implies s[i] != ')' by {
        assert(s[i] == target[i - j - 2]);
        assert(target.contains(target[i - j - 2]));
    }
    lemma_find_char_is(s, ']', 1, j);
    lemma_find_char_is(s, ')', j + 2, k);
    assert(is_link(s, 0));
    lemma_resolved_link(s, 0);
    assert(s.subrange(1, j) =~= label);
    assert(s.subrange(j + 2, k) =~= target);
    assert(resolved_from(s, k + 1) =~= Seq::<char>::empty());
    assert(link_text(label, resolved_target(target)) + Seq::<char>::empty() =~= link_text(
        label,
        resolved_target(target),
    ));
}

/// A text without an opening bracket holds no link, and stays as it is.
pub proof fn law_plain_text_kept(s: Seq<char>)
    requires
        !s.contains('['),
    ensures
        relative_paths_replaced(s) == s,
{
    assert forall|i: int| 0 <= i < s.len() implies !is_link(s, i) by {
        assert(s.contains(s[i]));
    }
    lemma_resolved_skip_range(s, 0, s.len() as int);
    assert(resolved_from(s, s.len() as int) =~= Seq::<char>::empty());
    assert(s.subrange(0, s.len() as int) + Seq::<char>::empty() =~= s);
}

/// The first position at or after `from` that holds `c`.
fn position_of(chars: &Vec<char>, c: char, from: usize) -> (at: usize)
    ensures
        at == find_char(chars@, c, from as int),
        at <= chars.len(),
        from <= chars.len() ==> from <= at,
{
    let mut at: usize = from;
    proof {
        lemma_find_char_bounds(chars@, c, from as int);
    }
    while at < chars.len() && chars[at] != c
        invariant
            find_char(chars@, c, at as int) == find_char(chars@, c, from as int),
        decreases chars.len() - at,
    {
        at += 1;
    }
    if at > chars.len() {
        chars.len()
    } else {
        at
    }
}

/// Whether a character is a letter of the alphabet.
fn letter(c: char) -> (yes: bool)
    ensures
        yes == is_letter(c),
{
    ('a' <= c && c <= 'z') || ('A' <= c && c <= 'Z')
}

/// Whether a scheme can hold a character behind its first.
fn scheme_char(c: char) -> (yes: bool)
    ensures
        yes == is_scheme_char(c),
{
    letter(c) || ('0' <= c && c <= '9') || c == '+' || c == '-' || c == '.'
}

/// Whether the target `chars[from..to]` is absolute.
fn absolute_in(chars: &Vec<char>, from: usize, to: usize) -> (yes: bool)
    requires
        from <= to <= chars.len(),
    ensures
        yes == is_absolute(chars@.subrange(from as int, to as int)),
{
    let ghost target = chars@.subrange(from as int, to as int);
    if from == to {
        return false;
    }
    if chars[from] == '/' {
        assert(target[0] == '/');
        return true;
    }
    assert(target[0] == chars@[from as int]);
    if !letter(chars[from]) {
        return false;
    }
    let mut at: usize = from + 1;
    while at < to && scheme_char(chars[at])
        invariant
            from < at <= to <= chars.len(),
            target == chars@.subrange(from as int, to as int),
            forall|i: int| 1 <= i < at - from ==> is_scheme_char(#[trigger] target[i]),
        decreases to - at,
    {
        at += 1;
    }
    let yes = at < to && chars[at] == ':';
    proof {
        let stop = at - from;
        if yes {
            assert(target[stop] == ':');
            assert(scheme_ends_at(target, stop));
        } else if has_scheme(target) {
            let colon = choose|colon: int| scheme_ends_at(target, colon);
            if colon < stop {
                assert(is_scheme_char(target[colon]));
            } else if colon > stop {
                assert(is_scheme_char(target[stop]));
                assert(target[stop] == chars@[at as int]);
            } else {
                assert(target[stop] == chars@[at as int]);
            }
        }
    }
    yes
}

/// Whether a link target is absolute.
pub fn is_absolute_target(target: &str) -> (yes: bool)
    ensures
        yes == is_absolute(target@),
{
    let chars = to_chars(target);
    proof {
        assert(chars@.subrange(0, chars.len() as int) =~= chars@);
    }
    absolute_in(&chars, 0, chars.len())
}

/// Appends `chars[from..to]` to `out`.
fn push_range(out: &mut String, chars: &Vec<char>, from: usize, to: usize)
    requires
        from <= to <= chars.len(),
    ensures
        final(out)@ == old(out)@ + chars@.subrange(from as int, to as int),
{
    let mut i: usize = from;
    assert(out@ =~= old(out)@ + chars@.subrange(from as int, i as int));
    while i < to
        invariant
            from <= i <= to <= chars.len(),
            out@ == old(out)@ + chars@.subrange(from as int, i as int),
        decreases to - i,
    {
        out.push(chars[i]);
        i += 1;
        assert(out@ =~= old(out)@ + chars@.subrange(from as int, i as int));
    }
}

/// Appends the link with label `chars[start + 1..j]` and target
/// `chars[j + 2..k]`, the target resolved.
fn push_link(out: &mut String, chars: &Vec<char>, start: usize, j: usize, k: usize)
    requires
        start < j,
        j + 2 <= k <= chars.len(),
    ensures
        final(out)@ == old(out)@ + link_text(
            chars@.subrange(start + 1, j as int),
            resolved_target(chars@.subrange(j + 2, k as int)),
        ),
{
    let prefix = to_chars("/static/misc/");
    out.push('[');
    push_range(out, chars, start + 1, j);
    out.push(']');
    out.push('(');
    if !absolute_in(chars, j + 2, k) {
        push_range(out, &prefix, 0, prefix.len());
        assert(prefix@.subrange(0, prefix.len() as int) =~= prefix@);
    }
    push_range(out, chars, j + 2, k);
    out.push(')');
    assert(out@ =~= old(out)@ + link_text(
        chars@.subrange(start + 1, j as int),
        resolved_target(chars@.subrange(j + 2, k as int)),
    ));
}

/// What a look at one position of a text finds.
enum Found {
    /// A link opens there; its label ends at the first position, its
    /// target at the second.
    Link(usize, usize),
    /// No link opens there, nor anywhere before the position given.
    NoLinkBefore(usize),
}

/// Looks for a link at `at`. Where none opens there, the positions that
/// were searched and at which none can open either are passed over, so
/// that a text is gone through once.
fn look(chars: &Vec<char>, at: usize) -> (found: Found)
    requires
        at < chars.len(),
    ensures
        match found {
            Found::Link(j, k) => is_link(chars@, at as int) && j == label_end(chars@, at as int)
                && k == target_end(chars@, at as int) && at + 1 < j && j + 2 < k && k
                < chars.len(),
            Found::NoLinkBefore(next) => at < next <= chars.len() && forall|i: int|
                at <= i < next ==> !is_link(chars@, i),
        },
{
    let n = chars.len();
    if chars[at] != '[' {
        return Found::NoLinkBefore(at + 1);
    }
    let j = position_of(chars, ']', at + 1);
    if j >= n {
        proof {
            assert forall|i: int| at <= i < n implies !is_link(chars@, i) by {
                lemma_no_link_behind(chars@, at as int, i);
            }
        }
        return Found::NoLinkBefore(n);
    }
    if j == at + 1 || j + 1 >= n || chars[j + 1] != '(' {
        proof {
            assert(!is_link(chars@, at as int));
            assert forall|i: int| at <= i < j + 1 implies !is_link(chars@, i) by {
                lemma_no_link_within(chars@, at as int, i);
            }
        }
        return Found::NoLinkBefore(j + 1);
    }
    let k = position_of(chars, ')', j + 2);
    if k >= n {
        proof {
            assert forall|i: int| at <= i < n implies !is_link(chars@, i) by {
                lemma_no_link_behind(chars@, at as int, i);
            }
        }
        return Found::NoLinkBefore(n);
    }
    if k == j + 2 {
        proof {
            assert(!is_link(chars@, at as int));
            assert forall|i: int| at <= i < j + 1 implies !is_link(chars@, i) by {
                lemma_no_link_within(chars@, at as int, i);
            }
        }
        return Found::NoLinkBefore(j + 1);
    }
    Found::Link(j, k)
}

/// Rewrites every link `[label](target)` of `content` whose target is
/// relative so that it points into the static-resource directory. Absolute
/// targets, and all text outside links, are kept.
pub fn replace_relative_paths(content: &str) -> (replaced: String)
    ensures
        replaced@ == relative_paths_replaced(content@),
{
    let chars = to_chars(content);
    let n = chars.len();
    let mut out = String::new();
    let mut at: usize = 0;
    assert(out@ + resolved_from(chars@, 0) =~= resolved_from(chars@, 0));
    while at < n
        invariant
            n == chars.len(),
            at <= n,
            out@ + resolved_from(chars@, at as int) == resolved_from(chars@, 0),
        decreases n - at,
    {
        let ghost before = out@;
        match look(&chars, at) {
            Found::Link(j, k) => {
                push_link(&mut out, &chars, at, j, k);
                proof {
                    lemma_resolved_link(chars@, at as int);
                    let link = link_text(
                        chars@.subrange(at + 1, j as int),
                        resolved_target(chars@.subrange(j + 2, k as int)),
                    );
                    assert(before + link + resolved_from(chars@, k + 1) =~= before + (link
                        + resolved_from(chars@, k + 1)));
                }
                at = k + 1;
            },
            Found::NoLinkBefore(next) => {
                push_range(&mut out, &chars, at, next);
                proof {
                    lemma_resolved_skip_range(chars@, at as int, next as int);
                    let kept = chars@.subrange(at as int, next as int);
                    assert(before + kept + resolved_from(chars@, next as int) =~= before + (kept
                        + resolved_from(chars@, next as int)));
                }
                at = next;
            },
        }
    }
    proof {
        assert(resolved_from(chars@, n as int) =~= Seq::<char>::empty());
        assert(out@ + Seq::<char>::empty() =~= out@);
    }
    out
}

/// Calls pulldown-cmark: `Parser::new_ext` on the text, with the options
/// that `Options::from_bits_truncate` makes of `extensions`, and
/// `html::push_html` into an empty string. Nothing is proved of the HTML;
/// the contract gives it its name.
#[verifier::external_body]
fn render(markdown: &str, extensions: u32) -> (rendered: String)
    ensures
        rendered@ == rendered_html(markdown@, extensions),
{
    let parser = Parser::new_ext(markdown, Options::from_bits_truncate(extensions));
    let mut rendered = String::new();
    html::push_html(&mut rendered, parser);
    rendered
}

/// Renders markdown to HTML, with strikethrough, tables, footnotes and
/// task lists switched on.
pub fn markdown_to_html(markdown: &str) -> (rendered: String)
    ensures
        rendered@ == rendered_html(markdown@, EXTENSIONS),
{
    render(markdown, EXTENSIONS)
}

/// Turns the body of a document into its display content.
pub fn transform(body: &str) -> (content: String)
    ensures
        content@ == display_content(body@),
{
    let replaced = replace_relative_paths(body);
    markdown_to_html(replaced.as_str())
}

} // verus!
