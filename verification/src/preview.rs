//! One-line previews of clipboard contents, as stored next to each clip.
use vstd::prelude::*;
use crate::textutil::{
    chars_are, chars_of, chars_start_with, collapse_whitespace, collapse_ws, from_utf8_lossy, is_ws,
    join, push_chars, push_str, string_of, take_chars, trim_chars, trim_end, trim_start, trimmed, utf8_lossy, words,
};

verus! {

/// Longest preview, in characters.
pub const MAX_PREVIEW_LEN: usize = 200;

/// The first `max` characters of `s` (all of `s` when it is shorter).
pub open spec fn truncated(s: Seq<char>, max: nat) -> Seq<char> {
    if s.len() <= max { s } else { s.take(max as int) }
}

// ---------------------------------------------------------------------
// HTML.
// ---------------------------------------------------------------------

/// Whether the scanner is inside a `<...>` tag after reading `s`.
pub open spec fn in_tag_after(s: Seq<char>) -> bool
    decreases s.len(),
{
    if s.len() == 0 {
        false
    } else if s.last() == '<' {
        true
    } else if s.last() == '>' {
        false
    } else {
        in_tag_after(s.drop_last())
    }
}

/// The characters of `s` that lie outside `<...>` tags; the brackets
/// themselves are dropped.
pub open spec fn outside_tags(s: Seq<char>) -> Seq<char>
    decreases s.len(),
{
    if s.len() == 0 {
        seq![]
    } else {
        let c = s.last();
        let p = outside_tags(s.drop_last());
        if c == '<' || c == '>' || in_tag_after(s.drop_last()) {
            p
        } else {
            p.push(c)
        }
    }
}

/// Text of an HTML fragment: tags removed, whitespace runs collapsed to
/// single spaces, no leading or trailing whitespace.
pub open spec fn html_text(s: Seq<char>) -> Seq<char> {
    collapse_ws(outside_tags(s))
}

fn strip_tags_chars(v: &Vec<char>) -> (r: Vec<char>)
    ensures
        r@ == outside_tags(v@),
{
    let mut out: Vec<char> = Vec::new();
    let mut in_tag = false;
    let mut i: usize = 0;
    while i < v.len()
        invariant
            i <= v@.len(),
            out@ == outside_tags(v@.take(i as int)),
            in_tag == in_tag_after(v@.take(i as int)),
        decreases v.len() - i,
    {
        let c = v[i];
        assert(v@.take(i + 1).drop_last() =~= v@.take(i as int));
        if c == '<' {
            in_tag = true;
        } else if c == '>' {
            in_tag = false;
        } else if !in_tag {
            out.push(c);
        }
        i = i + 1;
    }
    assert(v@.take(v@.len() as int) =~= v@);
    out
}

/// Minimal HTML tag stripper — removes anything inside < >.
pub fn strip_html_tags(html: &str) -> (r: String)
    ensures
        r@ == html_text(html@),
{
    let v = chars_of(html);
    let stripped = strip_tags_chars(&v);
    let c = collapse_whitespace(&stripped);
    string_of(&c)
}

// ---------------------------------------------------------------------
// Markdown.
// ---------------------------------------------------------------------

/// `s` split at every `\n` (always at least one, possibly empty, line).
pub open spec fn split_lines(s: Seq<char>) -> Seq<Seq<char>>
    decreases s.len(),
{
    if s.len() == 0 {
        seq![seq![]]
    } else if s.last() == '\n' {
        split_lines(s.drop_last()).push(seq![])
    } else {
        let p = split_lines(s.drop_last());
        p.drop_last().push(p.last().push(s.last()))
    }
}

/// Whether `c` is Markdown syntax the preview drops: heading, emphasis,
/// code or quote marks.
pub open spec fn is_md_mark(c: char) -> bool {
    c == '#' || c == '*' || c == '`' || c == '>'
}

/// `s` without any `#`, `*`, `` ` `` or `>` characters.
pub open spec fn drop_marks(s: Seq<char>) -> Seq<char>
    decreases s.len(),
{
    if s.len() == 0 {
        seq![]
    } else if is_md_mark(s.last()) {
        drop_marks(s.drop_last())
    } else {
        drop_marks(s.drop_last()).push(s.last())
    }
}

/// One Markdown line made plain: every heading, emphasis, code and quote
/// mark removed, then trimmed.
pub open spec fn md_line(l: Seq<char>) -> Seq<char> {
    trimmed(drop_marks(l))
}

/// The plain forms of `lines` that are not empty, in order.
pub open spec fn kept_lines(lines: Seq<Seq<char>>) -> Seq<Seq<char>>
    decreases lines.len(),
{
    if lines.len() == 0 {
        seq![]
    } else {
        let k = kept_lines(lines.drop_last());
        let m = md_line(lines.last());
        if m.len() > 0 { k.push(m) } else { k }
    }
}

/// Plain text of a Markdown document: its non-empty plain lines joined
/// with single spaces. (`str::lines` also drops a `\r` before each `\n`;
/// trimming removes it anyway, so splitting at `\n` alone is the same.)
pub open spec fn markdown_text(s: Seq<char>) -> Seq<char> {
    join(kept_lines(split_lines(s)), seq![' '])
}

fn drop_marks_chars(v: &Vec<char>) -> (r: Vec<char>)
    ensures
        r@ == drop_marks(v@),
{
    let mut out: Vec<char> = Vec::new();
    let mut i: usize = 0;
    while i < v.len()
        invariant
            i <= v@.len(),
            out@ == drop_marks(v@.take(i as int)),
        decreases v.len() - i,
    {
        let c = v[i];
        assert(v@.take(i + 1).drop_last() =~= v@.take(i as int));
        if !(c == '#' || c == '*' || c == '`' || c == '>') {
            out.push(c);
        }
        i = i + 1;
    }
    assert(v@.take(v@.len() as int) =~= v@);
    out
}

fn md_line_chars(l: &Vec<char>) -> (r: Vec<char>)
    ensures
        r@ == md_line(l@),
{
    let d = drop_marks_chars(l);
    trim_chars(&d)
}

proof fn lemma_join_push_kept(lines: Seq<Seq<char>>, m: Seq<char>)
    requires
        m.len() > 0,
    ensures
        join(kept_lines(lines).push(m), seq![' ']) == if kept_lines(lines).len() == 0 {
            m
        } else {
            join(kept_lines(lines), seq![' ']) + seq![' '] + m
        },
{
    assert(kept_lines(lines).push(m).drop_last() =~= kept_lines(lines));
}

/// Minimal Markdown syntax stripper: removes every `#`, `*`, `` ` `` and
/// `>`, trims each line, drops the lines left empty and joins the others
/// with single spaces.
pub fn strip_markdown(md: &str) -> (r: String)
    ensures
        r@ == markdown_text(md@),
{
    let v = chars_of(md);
    let mut out: Vec<char> = Vec::new();
    let mut cur: Vec<char> = Vec::new();
    let mut i: usize = 0;
    while i < v.len()
        invariant
            i <= v@.len(),
            out@ == join(kept_lines(split_lines(v@.take(i as int)).drop_last()), seq![' ']),
            cur@ == split_lines(v@.take(i as int)).last(),
            split_lines(v@.take(i as int)).len() > 0,
        decreases v.len() - i,
    {
        let c = v[i];
        let ghost pre = v@.take(i as int);
        assert(v@.take(i + 1).drop_last() =~= pre);
        let ghost lines = split_lines(pre);
        if c == '\n' {
            let m = md_line_chars(&cur);
            proof {
                assert(split_lines(v@.take(i + 1)) == lines.push(seq![]));
                assert(lines.push(seq![]).drop_last() =~= lines);
                assert(lines.drop_last().push(lines.last()) =~= lines);
            }
            if m.len() > 0 {
                proof {
                    lemma_join_push_kept(lines.drop_last(), m@);
                    lemma_kept_join_len(lines.drop_last());
                }
                if out.len() > 0 {
                    out.push(' ');
                }
                push_chars(&mut out, &m);
                proof {
                    if kept_lines(lines.drop_last()).len() == 0 {
                        assert(out@ =~= m@);
                    }
                }
            }
            cur = Vec::new();
        } else {
            cur.push(c);
            proof {
                let p2 = lines.drop_last().push(lines.last().push(c));
                assert(p2.drop_last() =~= lines.drop_last());
            }
        }
        i = i + 1;
    }
    let ghost all = split_lines(v@);
    assert(v@.take(v@.len() as int) =~= v@);
    let m = md_line_chars(&cur);
    proof {
        assert(all.drop_last().push(all.last()) =~= all);
    }
    if m.len() > 0 {
        proof {
            lemma_join_push_kept(all.drop_last(), m@);
            lemma_kept_join_len(all.drop_last());
        }
        if out.len() > 0 {
            out.push(' ');
        }
        push_chars(&mut out, &m);
        proof {
            if kept_lines(all.drop_last()).len() == 0 {
                assert(out@ =~= m@);
            }
        }
    }
    string_of(&out)
}

/// Every kept line is non-empty.
proof fn lemma_kept_nonempty(lines: Seq<Seq<char>>)
    ensures
        forall|k: int| 0 <= k < kept_lines(lines).len() ==> (#[trigger] kept_lines(lines)[k]).len() > 0,
    decreases lines.len(),
{
    if lines.len() > 0 {
        lemma_kept_nonempty(lines.drop_last());
        let k = kept_lines(lines.drop_last());
        let m = md_line(lines.last());
        if m.len() > 0 {
            assert forall|j: int| 0 <= j < k.push(m).len() implies (#[trigger] k.push(m)[j]).len() > 0 by {
                if j < k.len() {
                    assert(k.push(m)[j] == k[j]);
                }
            }
        }
    }
}

/// Joining only non-empty pieces gives an empty text exactly when there
/// are no pieces.
proof fn lemma_join_empty(pieces: Seq<Seq<char>>)
    requires
        forall|k: int| 0 <= k < pieces.len() ==> (#[trigger] pieces[k]).len() > 0,
    ensures
        (join(pieces, seq![' ']).len() == 0) <==> (pieces.len() == 0),
    decreases pieces.len(),
{
    if pieces.len() > 1 {
        assert(pieces.last() == pieces[pieces.len() - 1]);
    } else if pieces.len() == 1 {
        assert(pieces[0].len() > 0);
    }
}

/// Joining the kept lines gives an empty text exactly when none is kept.
proof fn lemma_kept_join_len(lines: Seq<Seq<char>>)
    ensures
        (join(kept_lines(lines), seq![' ']).len() == 0) <==> (kept_lines(lines).len() == 0),
{
    lemma_kept_nonempty(lines);
    lemma_join_empty(kept_lines(lines));
}

// ---------------------------------------------------------------------
// Files.
// ---------------------------------------------------------------------

/// What `Path::new(path).file_name()` yields for `path` (its final
/// normal component, if any).
pub uninterp spec fn path_file_name(path: Seq<char>) -> Option<Seq<char>>;

/// `std::path::Path::file_name`, taken as an owned string. The path comes
/// from a `str`, so the lossy conversion back to UTF-8 is exact. The
/// contract names the result; which component counts as the file name
/// is left to the name.
#[verifier::external_body]
fn file_name_of(path: &str) -> (r: Option<String>)
    ensures
        match r {
            Some(n) => path_file_name(path@) == Some(n@),
            None => path_file_name(path@) is None,
        },
{
    match std::path::Path::new(path).file_name() {
        Some(n) => Some(n.to_string_lossy().into_owned()),
        None => None,
    }
}

/// The label shown for a file clip: the file name of the trimmed path,
/// or the whole untrimmed text when the path has none.
pub open spec fn file_label(text: Seq<char>) -> Seq<char> {
    match path_file_name(trimmed(text)) {
        Some(n) => n,
        None => text,
    }
}

// ---------------------------------------------------------------------
// Preview.
// ---------------------------------------------------------------------

/// The preview of a clip whose content decodes to `text` and whose MIME
/// type is `ct`.
pub open spec fn preview_spec(text: Seq<char>, ct: Seq<char>) -> Seq<char> {
    if ct == "text/plain"@ {
        truncated(text, 200)
    } else if ct == "text/html"@ {
        truncated(html_text(text), 200)
    } else if ct == "text/markdown"@ {
        truncated(markdown_text(text), 200)
    } else if "image/"@.is_prefix_of(ct) {
        "[Image]"@
    } else if ct == "application/file"@ {
        "[File: "@ + file_label(text) + "]"@
    } else {
        truncated(text, 200)
    }
}

fn truncate_chars(v: &Vec<char>, max: usize) -> (r: String)
    ensures
        r@ == truncated(v@, max as nat),
{
    let t = take_chars(v, max);
    assert(v@.len() <= max ==> v@.take(v@.len() as int) =~= v@);
    string_of(&t)
}

/// The first `max` characters of `s`.
pub fn truncate_str(s: &str, max: usize) -> (r: String)
    ensures
        r@ == truncated(s@, max as nat),
{
    let v = chars_of(s);
    truncate_chars(&v, max)
}

/// Lossily decoded `bytes`, cut to `max` characters.
pub fn truncate_utf8(bytes: &[u8], max: usize) -> (r: String)
    ensures
        r@ == truncated(utf8_lossy(bytes@), max as nat),
{
    let s = from_utf8_lossy(bytes);
    truncate_str(s.as_str(), max)
}

/// The label of a file clip whose text is `text` and whose path has the
/// file name `name`: `[File: name]`, or `[File: text]` without one.
pub fn file_label_from(text: &str, name: Option<String>) -> (r: String)
    ensures
        r@ == "[File: "@ + (match name {
            Some(n) => n@,
            None => text@,
        }) + "]"@,
{
    let mut out: Vec<char> = Vec::new();
    push_str(&mut out, "[File: ");
    match name {
        Some(n) => push_str(&mut out, n.as_str()),
        None => push_str(&mut out, text),
    }
    push_str(&mut out, "]");
    string_of(&out)
}

/// Preview of an already decoded clip text.
pub fn preview_of_text(text: &str, content_type: &str) -> (r: String)
    ensures
        r@ == preview_spec(text@, content_type@),
{
    let ct = chars_of(content_type);
    if chars_are(&ct, "text/plain") {
        truncate_str(text, MAX_PREVIEW_LEN)
    } else if chars_are(&ct, "text/html") {
        let v = chars_of(text);
        let stripped = strip_tags_chars(&v);
        let c = collapse_whitespace(&stripped);
        truncate_chars(&c, MAX_PREVIEW_LEN)
    } else if chars_are(&ct, "text/markdown") {
        let s = strip_markdown(text);
        truncate_str(s.as_str(), MAX_PREVIEW_LEN)
    } else if chars_start_with(&ct, "image/") {
        String::from_str("[Image]")
    } else if chars_are(&ct, "application/file") {
        let v = chars_of(text);
        let t = trim_chars(&v);
        let trimmed_path = string_of(&t);
        file_label_from(text, file_name_of(trimmed_path.as_str()))
    } else {
        truncate_str(text, MAX_PREVIEW_LEN)
    }
}

/// The preview stored next to a clip with the given raw content and MIME
/// type.
pub fn generate_preview(content: &[u8], content_type: &str) -> (r: String)
    ensures
        r@ == preview_spec(utf8_lossy(content@), content_type@),
{
    let text = from_utf8_lossy(content);
    preview_of_text(text.as_str(), content_type)
}

// ---------------------------------------------------------------------
// Properties.
// ---------------------------------------------------------------------

proof fn lemma_drop_marks_clean(s: Seq<char>)
    ensures
        forall|k: int| 0 <= k < drop_marks(s).len() ==> {
            !is_md_mark(#[trigger] drop_marks(s)[k])
        },
        forall|k: int| 0 <= k < drop_marks(s).len() ==> s.contains(#[trigger] drop_marks(s)[k]),
    decreases s.len(),
{
    if s.len() > 0 {
        lemma_drop_marks_clean(s.drop_last());
        let p = drop_marks(s.drop_last());
        assert forall|k: int| 0 <= k < drop_marks(s).len() implies s.contains(#[trigger] drop_marks(s)[k]) by {
            if k < p.len() {
                assert(drop_marks(s)[k] == p[k]);
                assert(s.drop_last().contains(p[k]));
                let j = choose|j: int| 0 <= j < s.drop_last().len() && s.drop_last()[j] == p[k];
                assert(s[j] == p[k]);
            } else {
                assert(drop_marks(s)[k] == s.last());
                assert(s[s.len() - 1] == s.last());
            }
        }
    }
}

proof fn lemma_outside_tags_clean(s: Seq<char>)
    ensures
        forall|k: int| 0 <= k < outside_tags(s).len() ==> {
            let c = #[trigger] outside_tags(s)[k];
            c != '<' && c != '>'
        },
    decreases s.len(),
{
    if s.len() > 0 {
        lemma_outside_tags_clean(s.drop_last());
        let p = outside_tags(s.drop_last());
        let c = s.last();
        if !(c == '<' || c == '>' || in_tag_after(s.drop_last())) {
            assert forall|k: int| 0 <= k < p.push(c).len() implies {
                let d = #[trigger] p.push(c)[k];
                d != '<' && d != '>'
            } by {
                if k < p.len() {
                    assert(p.push(c)[k] == p[k]);
                }
            }
        }
    }
}

/// Characters of `s` all avoid the set described by `bad`.
pub open spec fn avoids(s: Seq<char>, bad: spec_fn(char) -> bool) -> bool {
    forall|k: int| 0 <= k < s.len() ==> !bad(#[trigger] s[k])
}

proof fn lemma_join_avoids(pieces: Seq<Seq<char>>, bad: spec_fn(char) -> bool)
    requires
        !bad(' '),
        forall|i: int| 0 <= i < pieces.len() ==> avoids(#[trigger] pieces[i], bad),
    ensures
        avoids(join(pieces, seq![' ']), bad),
    decreases pieces.len(),
{
    if pieces.len() > 1 {
        lemma_join_avoids(pieces.drop_last(), bad);
        let a = join(pieces.drop_last(), seq![' ']);
        let l = pieces.last();
        assert(avoids(l, bad)) by {
            assert(pieces[pieces.len() - 1] == l);
        }
        let j = a + seq![' '] + l;
        assert forall|k: int| 0 <= k < j.len() implies !bad(#[trigger] j[k]) by {
            if k < a.len() {
                assert(j[k] == a[k]);
            } else if k == a.len() {
                assert(j[k] == ' ');
            } else {
                assert(j[k] == l[k - a.len() - 1]);
            }
        }
    } else if pieces.len() == 1 {
        assert(avoids(pieces[0], bad));
    }
}

proof fn lemma_words_from(s: Seq<char>, bad: spec_fn(char) -> bool)
    requires
        avoids(s, bad),
    ensures
        forall|i: int| 0 <= i < words(s).len() ==> avoids(#[trigger] words(s)[i], bad),
    decreases s.len(),
{
    if s.len() > 0 {
        assert(avoids(s.drop_last(), bad)) by {
            assert forall|k: int| 0 <= k < s.drop_last().len() implies !bad(#[trigger] s.drop_last()[k]) by {
                assert(s.drop_last()[k] == s[k]);
            }
        }
        lemma_words_from(s.drop_last(), bad);
        let w = words(s.drop_last());
        assert(!bad(s.last())) by {
            assert(s[s.len() - 1] == s.last());
        }
        if !is_ws(s.last()) && s.len() >= 2 && !is_ws(s[s.len() - 2]) {
            lemma_words_nonempty_prefix(s.drop_last());
            let nw = w.drop_last().push(w.last().push(s.last()));
            assert forall|i: int| 0 <= i < nw.len() implies avoids(#[trigger] nw[i], bad) by {
                if i < w.len() - 1 {
                    assert(nw[i] == w[i]);
                } else {
                    assert(w.last() == w[w.len() - 1]);
                    assert(avoids(w[w.len() - 1], bad));
                    assert forall|k: int| 0 <= k < nw[i].len() implies !bad(#[trigger] nw[i][k]) by {
                        if k < w.last().len() {
                            assert(nw[i][k] == w.last()[k]);
                        }
                    }
                }
            }
        } else if !is_ws(s.last()) {
            let nw = w.push(seq![s.last()]);
            assert forall|i: int| 0 <= i < nw.len() implies avoids(#[trigger] nw[i], bad) by {
                if i < w.len() {
                    assert(nw[i] == w[i]);
                }
            }
        }
    }
}

proof fn lemma_words_nonempty_prefix(s: Seq<char>)
    requires
        s.len() > 0,
        !is_ws(s.last()),
    ensures
        words(s).len() > 0,
{
    assert(!is_ws(s[s.len() - 1]));
}

/// Previews of text, HTML, Markdown and unknown types are at most
/// `MAX_PREVIEW_LEN` characters long.
pub proof fn lemma_preview_bounded(text: Seq<char>, ct: Seq<char>)
    requires
        !("image/"@.is_prefix_of(ct)),
        ct != "application/file"@,
    ensures
        preview_spec(text, ct).len() <= 200,
{
}

/// An HTML preview never shows a tag bracket.
pub proof fn lemma_html_text_has_no_brackets(s: Seq<char>)
    ensures
        avoids(html_text(s), |c: char| c == '<' || c == '>'),
{
    let bad = |c: char| c == '<' || c == '>';
    lemma_outside_tags_clean(s);
    lemma_words_from(outside_tags(s), bad);
    lemma_join_avoids(words(outside_tags(s)), bad);
}

proof fn lemma_trim_start_avoids(s: Seq<char>, bad: spec_fn(char) -> bool)
    requires
        avoids(s, bad),
    ensures
        avoids(trim_start(s), bad),
    decreases s.len(),
{
    if s.len() > 0 && is_ws(s[0]) {
        assert forall|k: int| 0 <= k < s.drop_first().len() implies !bad(#[trigger] s.drop_first()[k]) by {
            assert(s.drop_first()[k] == s[k + 1]);
        }
        lemma_trim_start_avoids(s.drop_first(), bad);
    }
}

proof fn lemma_trim_end_avoids(s: Seq<char>, bad: spec_fn(char) -> bool)
    requires
        avoids(s, bad),
    ensures
        avoids(trim_end(s), bad),
    decreases s.len(),
{
    if s.len() > 0 && is_ws(s.last()) {
        assert forall|k: int| 0 <= k < s.drop_last().len() implies !bad(#[trigger] s.drop_last()[k]) by {
            assert(s.drop_last()[k] == s[k]);
        }
        lemma_trim_end_avoids(s.drop_last(), bad);
    }
}

proof fn lemma_kept_clean(lines: Seq<Seq<char>>)
    ensures
        forall|i: int| 0 <= i < kept_lines(lines).len() ==> avoids(
            #[trigger] kept_lines(lines)[i],
            |c: char| is_md_mark(c),
        ),
    decreases lines.len(),
{
    let bad = |c: char| is_md_mark(c);
    if lines.len() > 0 {
        lemma_kept_clean(lines.drop_last());
        let k = kept_lines(lines.drop_last());
        let d = drop_marks(lines.last());
        let m = md_line(lines.last());
        lemma_drop_marks_clean(lines.last());
        assert(avoids(d, bad));
        lemma_trim_start_avoids(d, bad);
        lemma_trim_end_avoids(trim_start(d), bad);
        if m.len() > 0 {
            assert forall|i: int| 0 <= i < k.push(m).len() implies avoids(#[trigger] k.push(m)[i], bad) by {
                if i < k.len() {
                    assert(k.push(m)[i] == k[i]);
                }
            }
        }
    }
}

/// A Markdown preview never shows heading, emphasis, code or quote marks.
pub proof fn lemma_markdown_text_has_no_marks(s: Seq<char>)
    ensures
        avoids(markdown_text(s), |c: char| is_md_mark(c)),
{
    lemma_kept_clean(split_lines(s));
    lemma_join_avoids(kept_lines(split_lines(s)), |c: char| is_md_mark(c));
}

proof fn lemma_in_tag_concat(a: Seq<char>, b: Seq<char>)
    requires
        !in_tag_after(a),
    ensures
        in_tag_after(a + b) == in_tag_after(b),
    decreases b.len(),
{
    if b.len() == 0 {
        assert(a + b =~= a);
    } else {
        lemma_in_tag_concat(a, b.drop_last());
        assert((a + b).drop_last() =~= a + b.drop_last());
        assert((a + b).last() == b.last());
    }
}

proof fn lemma_outside_tags_concat(a: Seq<char>, b: Seq<char>)
    requires
        !in_tag_after(a),
    ensures
        outside_tags(a + b) == outside_tags(a) + outside_tags(b),
    decreases b.len(),
{
    if b.len() == 0 {
        assert(a + b =~= a);
        assert(outside_tags(a) + outside_tags(b) =~= outside_tags(a));
    } else {
        lemma_outside_tags_concat(a, b.drop_last());
        lemma_in_tag_concat(a, b.drop_last());
        assert((a + b).drop_last() =~= a + b.drop_last());
        assert((a + b).last() == b.last());
        assert(outside_tags(a) + outside_tags(b.drop_last()).push(b.last()) =~= (outside_tags(a)
            + outside_tags(b.drop_last())).push(b.last()));
    }
}

proof fn lemma_open_tag(x: Seq<char>)
    requires
        forall|k: int| 0 <= k < x.len() ==> #[trigger] x[k] != '<' && x[k] != '>',
    ensures
        in_tag_after(seq!['<'] + x),
        outside_tags(seq!['<'] + x) == Seq::<char>::empty(),
    decreases x.len(),
{
    if x.len() == 0 {
        assert(seq!['<'] + x =~= seq!['<']);
        assert(seq!['<'].drop_last() =~= Seq::<char>::empty());
        assert(seq!['<'].last() == '<');
        assert(outside_tags(Seq::<char>::empty()) =~= Seq::<char>::empty());
    } else {
        lemma_open_tag(x.drop_last());
        assert((seq!['<'] + x).drop_last() =~= seq!['<'] + x.drop_last());
        assert((seq!['<'] + x).last() == x[x.len() - 1]);
    }
}

/// A tag is invisible in an HTML preview, however long it is: the preview
/// of a document that starts with a complete tag is the preview of the
/// rest of the document.
pub proof fn lemma_html_preview_skips_leading_tag(attrs: Seq<char>, rest: Seq<char>)
    requires
        forall|k: int| 0 <= k < attrs.len() ==> #[trigger] attrs[k] != '<' && attrs[k] != '>',
    ensures
        preview_spec(seq!['<'] + attrs + seq!['>'] + rest, "text/html"@) == preview_spec(rest, "text/html"@),
{
    reveal_strlit("text/html");
    reveal_strlit("text/plain");
    assert("text/html"@.len() != "text/plain"@.len());
    let open = seq!['<'] + attrs;
    let tag = open + seq!['>'];
    lemma_open_tag(attrs);
    assert(tag.drop_last() =~= open);
    assert(tag.last() == '>');
    assert(!in_tag_after(tag));
    assert(outside_tags(tag) == outside_tags(open));
    lemma_outside_tags_concat(tag, rest);
    assert(outside_tags(tag) + outside_tags(rest) =~= outside_tags(rest));
    assert(seq!['<'] + attrs + seq!['>'] + rest == tag + rest);
}

} // verus!
