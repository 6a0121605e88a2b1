//! Pure helpers of the clipboard-history window and its tray icon: labels,
//! filters, ages, and how a stored clip lands on the system clipboard.
use vstd::prelude::*;
use vstd::utf8::{decode_utf8, valid_utf8};
use crate::clips::ClipDetail;
use crate::textutil::{
    char_is_whitespace, char_lowercase, char_to_lowercase, chars_are, chars_of, chars_start_with,
    decimal, from_utf8, from_utf8_lossy, is_ws, push_chars, push_decimal, push_str, string_of,
    trim_chars, trimmed, utf8_lossy, lemma_trimmed_fixed, lemma_trimmed_idempotent,
    lemma_trimmed_shape,
};

verus! {

/// Whether `mime` is one of the textual types stored as UTF-8 text.
pub open spec fn is_text_mime(mime: Seq<char>) -> bool {
    mime == "text/plain"@ || mime == "text/html"@ || mime == "text/markdown"@
}

fn text_mime(mime: &Vec<char>) -> (b: bool)
    ensures
        b == is_text_mime(mime@),
{
    chars_are(mime, "text/plain") || chars_are(mime, "text/html") || chars_are(mime, "text/markdown")
}

// ---------------------------------------------------------------------
// Row decorations.
// ---------------------------------------------------------------------

/// The icon shown for a clip of type `mime`.
pub open spec fn icon_for(mime: Seq<char>) -> Seq<char> {
    if mime == "text/plain"@ {
        "🔤"@
    } else if mime == "text/html"@ {
        "📋"@
    } else if mime == "text/markdown"@ {
        "📝"@
    } else if mime == "application/file"@ {
        "📄"@
    } else if "image/"@.is_prefix_of(mime) {
        "🖼️"@
    } else {
        "📋"@
    }
}

/// Icon for a MIME type.
pub fn type_icon(mime: &str) -> (r: &'static str)
    ensures
        r@ == icon_for(mime@),
{
    let m = chars_of(mime);
    if chars_are(&m, "text/plain") {
        "🔤"
    } else if chars_are(&m, "text/html") {
        "📋"
    } else if chars_are(&m, "text/markdown") {
        "📝"
    } else if chars_are(&m, "application/file") {
        "📄"
    } else if chars_start_with(&m, "image/") {
        "🖼️"
    } else {
        "📋"
    }
}

/// The human name of a clip type.
pub open spec fn kind_label(mime: Seq<char>) -> Seq<char> {
    if mime == "text/plain"@ {
        "Text"@
    } else if mime == "text/html"@ {
        "HTML"@
    } else if mime == "text/markdown"@ {
        "Markdown"@
    } else if mime == "application/file"@ {
        "File"@
    } else if "image/"@.is_prefix_of(mime) {
        "Image"@
    } else {
        "Clip"@
    }
}

/// Human name for a MIME type.
pub fn friendly_type(mime: &str) -> (r: &'static str)
    ensures
        r@ == kind_label(mime@),
{
    let m = chars_of(mime);
    if chars_are(&m, "text/plain") {
        "Text"
    } else if chars_are(&m, "text/html") {
        "HTML"
    } else if chars_are(&m, "text/markdown") {
        "Markdown"
    } else if chars_are(&m, "application/file") {
        "File"
    } else if chars_start_with(&m, "image/") {
        "Image"
    } else {
        "Clip"
    }
}

// ---------------------------------------------------------------------
// Ages.
// ---------------------------------------------------------------------

/// `a - b` clamped to the `i64` range (`i64::saturating_sub`).
pub open spec fn saturating_diff(a: i64, b: i64) -> int {
    let d = a - b;
    if d > i64::MAX {
        i64::MAX as int
    } else if d < i64::MIN {
        i64::MIN as int
    } else {
        d
    }
}

/// How long ago `secs` seconds is, in words.
pub open spec fn elapsed_text(secs: int) -> Seq<char> {
    if secs < 60 {
        "just now"@
    } else if secs < 3600 {
        decimal((secs / 60) as nat) + " min ago"@
    } else if secs < 86400 {
        decimal((secs / 3600) as nat) + " hr ago"@
    } else {
        decimal((secs / 86400) as nat) + " days ago"@
    }
}

/// An age is shown in the largest unit it reaches, as the whole number of
/// those units that have fully elapsed: under a minute is "just now",
/// then minutes, hours, and from one day on the number of days.
pub proof fn lemma_age_counts_whole_units(secs: int)
    ensures
        secs < 60 ==> elapsed_text(secs) == "just now"@,
        60 <= secs < 3600 ==> exists|m: nat| #![trigger decimal(m)]
            elapsed_text(secs) == decimal(m) + " min ago"@ && 1 <= m && m * 60 <= secs < (m + 1) * 60,
        3600 <= secs < 86400 ==> exists|h: nat| #![trigger decimal(h)]
            elapsed_text(secs) == decimal(h) + " hr ago"@ && 1 <= h && h * 3600 <= secs < (h + 1) * 3600,
        86400 <= secs ==> exists|d: nat| #![trigger decimal(d)]
            elapsed_text(secs) == decimal(d) + " days ago"@ && 1 <= d && d * 86400 <= secs < (d + 1) * 86400,
{
    if 60 <= secs < 3600 {
        let m = (secs / 60) as nat;
        assert(m * 60 <= secs < (m + 1) * 60 && 1 <= m) by (nonlinear_arith)
            requires m == secs / 60, 60 <= secs;
        assert(elapsed_text(secs) == decimal(m) + " min ago"@);
    }
    if 3600 <= secs < 86400 {
        let h = (secs / 3600) as nat;
        assert(h * 3600 <= secs < (h + 1) * 3600 && 1 <= h) by (nonlinear_arith)
            requires h == secs / 3600, 3600 <= secs;
        assert(elapsed_text(secs) == decimal(h) + " hr ago"@);
    }
    if 86400 <= secs {
        let d = (secs / 86400) as nat;
        assert(d * 86400 <= secs < (d + 1) * 86400 && 1 <= d) by (nonlinear_arith)
            requires d == secs / 86400, 86400 <= secs;
        assert(elapsed_text(secs) == decimal(d) + " days ago"@);
    }
}

/// Age of a clip created at `created` as seen at `now` (unix seconds).
pub open spec fn age_text(now: i64, created: i64) -> Seq<char> {
    elapsed_text(saturating_diff(now, created))
}

fn elapsed_words(secs: i64) -> (r: String)
    ensures
        r@ == elapsed_text(secs as int),
{
    let mut out: Vec<char> = Vec::new();
    if secs < 60 {
        return String::from_str("just now");
    } else if secs < 3600 {
        push_decimal(&mut out, (secs / 60) as u64);
        push_str(&mut out, " min ago");
    } else if secs < 86400 {
        push_decimal(&mut out, (secs / 3600) as u64);
        push_str(&mut out, " hr ago");
    } else {
        push_decimal(&mut out, (secs / 86400) as u64);
        push_str(&mut out, " days ago");
    }
    string_of(&out)
}

/// Format `created_at` (unix seconds) relative to `now_secs`.
pub fn friendly_age_at(now_secs: i64, created_at: i64) -> (r: String)
    ensures
        r@ == age_text(now_secs, created_at),
{
    let d: i128 = (now_secs as i128) - (created_at as i128);
    let secs: i64 = if d > i64::MAX as i128 {
        i64::MAX
    } else if d < i64::MIN as i128 {
        i64::MIN
    } else {
        d as i64
    };
    elapsed_words(secs)
}

/// Seconds since the Unix epoch from the system clock, `None` when the
/// clock reads earlier than the epoch (`SystemTime::duration_since`).
/// Nothing is promised of the value: it is the time.
#[verifier::external_body]
fn unix_clock_secs() -> (r: Option<u64>) {
    match std::time::SystemTime::now().duration_since(std::time::UNIX_EPOCH) {
        Ok(d) => Some(d.as_secs()),
        Err(_) => None,
    }
}

/// Unix time for a clock reading: its seconds as an `i64` (`as`), or 0
/// for a clock before the epoch.
pub open spec fn unix_time(clock: Option<u64>) -> i64 {
    match clock {
        Some(v) => v as i64,
        None => 0,
    }
}

/// Unix time in seconds for the clock reading `clock` (seconds since the
/// epoch, `None` before it).
pub fn unix_time_from(clock: Option<u64>) -> (t: i64)
    ensures
        t == unix_time(clock),
{
    match clock {
        Some(v) => v as i64,
        None => 0,
    }
}

/// Current unix time in seconds, 0 if the clock is before the epoch.
/// The value is read from the clock: the contract says only that it is
/// `unix_time` of some clock reading.
pub fn now_unix() -> (t: i64)
    ensures
        exists|clock: Option<u64>| t == unix_time(clock),
{
    let s = unix_clock_secs();
    unix_time_from(s)
}

/// Convenience using the current system time.
pub fn friendly_age(created_at: i64) -> (r: String)
    ensures
        exists|now: i64| #[trigger] age_text(now, created_at) == r@,
{
    let now = now_unix();
    friendly_age_at(now, created_at)
}

/// The detail pane's age wording: plain difference, no saturation.
pub open spec fn pane_age_text(now: i64, created: i64) -> Seq<char> {
    elapsed_text(now - created)
}

/// Age label of the detail pane at `now`.
pub fn pane_age_at(now: i64, created_at: i64) -> (r: String)
    requires
        i64::MIN <= now - created_at <= i64::MAX,
    ensures
        r@ == pane_age_text(now, created_at),
{
    elapsed_words(now - created_at)
}

// ---------------------------------------------------------------------
// Filters.
// ---------------------------------------------------------------------

/// The daemon filter for the filter-bar toggles, by priority:
/// pinned > text > image > file > html > markdown > all.
pub open spec fn filter_spec(
    pinned: bool,
    text: bool,
    image: bool,
    file: bool,
    html: bool,
    markdown: bool,
) -> Seq<char> {
    if pinned {
        "pinned"@
    } else if text {
        "text/plain"@
    } else if image {
        "image/*"@
    } else if file {
        "application/file"@
    } else if html {
        "text/html"@
    } else if markdown {
        "text/markdown"@
    } else {
        ""@
    }
}

/// Map the filter-bar toggle state to the daemon's filter string.
/// Priority matches spec: pinned > text > image > file > html > markdown > all.
pub fn filter_for_state(
    pinned: bool,
    text: bool,
    image: bool,
    file: bool,
    html: bool,
    markdown: bool,
) -> (r: &'static str)
    ensures
        r@ == filter_spec(pinned, text, image, file, html, markdown),
{
    if pinned {
        "pinned"
    } else if text {
        "text/plain"
    } else if image {
        "image/*"
    } else if file {
        "application/file"
    } else if html {
        "text/html"
    } else if markdown {
        "text/markdown"
    } else {
        ""
    }
}

// ---------------------------------------------------------------------
// Writing a clip back to the clipboard.
// ---------------------------------------------------------------------

/// A `file://` URI for the (trimmed) path `text`; a path that already is
/// such a URI is kept as it is.
pub open spec fn file_uri(text: Seq<char>) -> Seq<char> {
    let p = trimmed(text);
    if "file://"@.is_prefix_of(p) {
        p
    } else {
        "file://"@ + p
    }
}

/// `file_uri` of the characters `v`.
pub fn file_uri_of(v: &Vec<char>) -> (r: String)
    ensures
        r@ == file_uri(v@),
{
    let p = trim_chars(v);
    if chars_start_with(&p, "file://") {
        string_of(&p)
    } else {
        let mut out: Vec<char> = Vec::new();
        push_str(&mut out, "file://");
        push_chars(&mut out, &p);
        string_of(&out)
    }
}

/// How a stored clip lands on the system clipboard.
#[derive(Debug, PartialEq)]
pub enum ClipboardPayload<'a> {
    /// Textual payload, set as plain text whatever the stored MIME.
    Text(String),
    /// Raster image bytes, decoded into a texture by the toolkit.
    Texture(&'a [u8]),
    /// File reference, set as a `text/uri-list`.
    FileUri(String),
    /// Raw bytes under the stored MIME.
    Raw { mime: String, bytes: Vec<u8> },
    /// Content that cannot be represented (text that is not UTF-8).
    Unsupported,
}

/// Pure description of how a stored clip should land on the system
/// clipboard.
pub fn payload_for<'a>(content_type: &'a str, data: &'a [u8]) -> (p: ClipboardPayload<'a>)
    ensures
        is_text_mime(content_type@) ==> match p {
            ClipboardPayload::Text(s) => valid_utf8(data@) && s@ == decode_utf8(data@),
            ClipboardPayload::Unsupported => !valid_utf8(data@),
            _ => false,
        },
        !is_text_mime(content_type@) && "image/"@.is_prefix_of(content_type@) ==> match p {
            ClipboardPayload::Texture(b) => b@ == data@,
            _ => false,
        },
        !is_text_mime(content_type@) && !"image/"@.is_prefix_of(content_type@) && content_type@
            == "application/file"@ ==> match p {
            ClipboardPayload::FileUri(u) => valid_utf8(data@) && u@ == file_uri(decode_utf8(data@)),
            ClipboardPayload::Unsupported => !valid_utf8(data@),
            _ => false,
        },
        !is_text_mime(content_type@) && !"image/"@.is_prefix_of(content_type@) && content_type@
            != "application/file"@ ==> match p {
            ClipboardPayload::Raw { mime, bytes } => mime@ == content_type@ && bytes@ == data@,
            _ => false,
        },
{
    let ct = chars_of(content_type);
    if text_mime(&ct) {
        match from_utf8(data) {
            Some(t) => ClipboardPayload::Text(String::from_str(t)),
            None => ClipboardPayload::Unsupported,
        }
    } else if chars_start_with(&ct, "image/") {
        ClipboardPayload::Texture(data)
    } else if chars_are(&ct, "application/file") {
        match from_utf8(data) {
            Some(t) => ClipboardPayload::FileUri(file_uri_of(&chars_of(t))),
            None => ClipboardPayload::Unsupported,
        }
    } else {
        let mut bytes: Vec<u8> = Vec::new();
        let mut i: usize = 0;
        while i < data.len()
            invariant
                i <= data@.len(),
                bytes@ == data@.take(i as int),
            decreases data.len() - i,
        {
            bytes.push(data[i]);
            i = i + 1;
            assert(data@.take(i as int) == data@.take((i - 1) as int).push(data@[i - 1]));
        }
        assert(data@.take(data@.len() as int) =~= data@);
        ClipboardPayload::Raw { mime: String::from_str(content_type), bytes }
    }
}

// ---------------------------------------------------------------------
// Detail pane.
// ---------------------------------------------------------------------

/// Body text shown for a clip in the detail pane.
pub open spec fn detail_text(ct: Seq<char>, content: Seq<u8>) -> Seq<char> {
    if is_text_mime(ct) {
        utf8_lossy(content)
    } else if "image/"@.is_prefix_of(ct) {
        "[Image — cannot display inline]"@
    } else if ct == "application/file"@ {
        "[File: "@ + utf8_lossy(content) + "]"@
    } else {
        "["@ + ct + " — "@ + decimal(content.len()) + " bytes]"@
    }
}

/// The detail pane's body text for `detail`.
pub fn detail_body(detail: &ClipDetail) -> (r: String)
    ensures
        r@ == detail_text(detail.content_type@, detail.content@),
{
    let ct = chars_of(detail.content_type.as_str());
    if text_mime(&ct) {
        from_utf8_lossy(detail.content.as_slice())
    } else if chars_start_with(&ct, "image/") {
        String::from_str("[Image — cannot display inline]")
    } else if chars_are(&ct, "application/file") {
        let t = from_utf8_lossy(detail.content.as_slice());
        let mut out: Vec<char> = Vec::new();
        push_str(&mut out, "[File: ");
        push_str(&mut out, t.as_str());
        push_str(&mut out, "]");
        string_of(&out)
    } else {
        let mut out: Vec<char> = Vec::new();
        push_str(&mut out, "[");
        push_chars(&mut out, &ct);
        push_str(&mut out, " — ");
        push_decimal(&mut out, detail.content.len() as u64);
        push_str(&mut out, " bytes]");
        string_of(&out)
    }
}

/// `kind · source · age`, with `unknown` for a missing source.
pub open spec fn meta_text(kind: Seq<char>, source: Seq<char>, age: Seq<char>) -> Seq<char> {
    kind + " · "@ + (if source.len() == 0 { "unknown"@ } else { source }) + " · "@ + age
}

/// The meta line of a history row or of the detail pane.
pub fn meta_line(kind: &str, source_app: &str, age: &str) -> (r: String)
    ensures
        r@ == meta_text(kind@, source_app@, age@),
{
    let mut out: Vec<char> = Vec::new();
    push_str(&mut out, kind);
    push_str(&mut out, " · ");
    let src = chars_of(source_app);
    if src.len() == 0 {
        push_str(&mut out, "unknown");
    } else {
        push_chars(&mut out, &src);
    }
    push_str(&mut out, " · ");
    push_str(&mut out, age);
    string_of(&out)
}

/// The pin button's label for a clip that is (or is not) pinned.
pub open spec fn pin_label(pinned: bool) -> Seq<char> {
    if pinned {
        "📌 Unpin"@
    } else {
        "📌 Pin"@
    }
}

/// Label of the pin button for a clip that is (or is not) pinned.
pub fn pin_button_label(pinned: bool) -> (r: &'static str)
    ensures
        r@ == pin_label(pinned),
{
    if pinned {
        "📌 Unpin"
    } else {
        "📌 Pin"
    }
}

// ---------------------------------------------------------------------
// Keyboard accelerators.
// ---------------------------------------------------------------------

/// `s` without whitespace, every character lower-cased.
pub open spec fn normalized_accel(s: Seq<char>) -> Seq<char>
    decreases s.len(),
{
    if s.len() == 0 {
        seq![]
    } else if is_ws(s.last()) {
        normalized_accel(s.drop_last())
    } else {
        normalized_accel(s.drop_last()) + char_lowercase(s.last())
    }
}

/// Accelerator string without whitespace, lower-cased.
pub fn normalize_accel(s: &str) -> (r: String)
    ensures
        r@ == normalized_accel(s@),
{
    let v = chars_of(s);
    let mut out: Vec<char> = Vec::new();
    let mut i: usize = 0;
    while i < v.len()
        invariant
            i <= v@.len(),
            out@ == normalized_accel(v@.take(i as int)),
        decreases v.len() - i,
    {
        let c = v[i];
        assert(v@.take(i + 1).drop_last() =~= v@.take(i as int));
        if !char_is_whitespace(c) {
            let low = char_to_lowercase(c);
            push_chars(&mut out, &low);
        }
        i = i + 1;
    }
    assert(v@.take(v@.len() as int) =~= v@);
    string_of(&out)
}

/// Accelerator-string equality. Case-insensitive so `<Super>v` matches
/// `<super>V`. Whitespace is stripped so `"<Super> v"` matches `"<Super>v"`.
pub fn accel_matches(a: &str, b: &str) -> (r: bool)
    ensures
        r == (normalized_accel(a@) == normalized_accel(b@)),
{
    let na = normalize_accel(a);
    let nb = normalize_accel(b);
    let va = chars_of(na.as_str());
    chars_are(&va, nb.as_str())
}

/// The entries of `current` that do not match `accel`, in order.
pub open spec fn without_accel(current: Seq<Seq<char>>, accel: Seq<char>) -> Seq<Seq<char>>
    decreases current.len(),
{
    if current.len() == 0 {
        seq![]
    } else {
        let p = without_accel(current.drop_last(), accel);
        if normalized_accel(current.last()) == normalized_accel(accel) {
            p
        } else {
            p.push(current.last())
        }
    }
}

/// The views of a list of strings.
pub open spec fn views(v: Seq<String>) -> Seq<Seq<char>> {
    v.map_values(|s: String| s@)
}

/// Pure: return `current` with any entry matching `accelerator` removed.
pub fn strip_conflict(current: &[String], accelerator: &str) -> (r: Vec<String>)
    ensures
        views(r@) == without_accel(views(current@), accelerator@),
{
    let mut out: Vec<String> = Vec::new();
    let mut i: usize = 0;
    while i < current.len()
        invariant
            i <= current@.len(),
            views(out@) == without_accel(views(current@.take(i as int)), accelerator@),
        decreases current.len() - i,
    {
        let ghost pre = views(current@.take(i as int));
        assert(views(current@.take(i + 1)).drop_last() =~= pre);
        assert(views(current@.take(i + 1)).last() == current@[i as int]@);
        if !accel_matches(current[i].as_str(), accelerator) {
            let e = current[i].clone();
            let ghost before = out@;
            out.push(e);
            assert(views(out@) =~= views(before).push(current@[i as int]@));
        }
        i = i + 1;
    }
    assert(current@.take(current@.len() as int) =~= current@);
    out
}

// ---------------------------------------------------------------------
// Properties.
// ---------------------------------------------------------------------

/// A file URI always starts with `file://`.
pub proof fn lemma_file_uri_scheme(text: Seq<char>)
    ensures
        "file://"@.is_prefix_of(file_uri(text)),
{
    let p = trimmed(text);
    if !"file://"@.is_prefix_of(p) {
        assert(("file://"@ + p).subrange(0, "file://"@.len() as int) =~= "file://"@);
    }
}

/// A file URI is its own file URI: converting twice is converting once,
/// so a path that already is a `file://` URI is kept.
pub proof fn lemma_file_uri_idempotent(text: Seq<char>)
    ensures
        file_uri(file_uri(text)) == file_uri(text),
{
    reveal_strlit("file://");
    let p = trimmed(text);
    lemma_trimmed_shape(text);
    if "file://"@.is_prefix_of(p) {
        lemma_trimmed_idempotent(text);
    } else {
        let r = "file://"@ + p;
        assert(r[0] == 'f');
        assert(!is_ws(r[0]));
        if p.len() > 0 {
            assert(r.last() == p.last());
        } else {
            assert(r.last() == '/');
        }
        lemma_trimmed_fixed(r);
        assert(r.subrange(0, "file://"@.len() as int) =~= "file://"@);
    }
}

proof fn lemma_normalized_concat(a: Seq<char>, b: Seq<char>)
    ensures
        normalized_accel(a + b) == normalized_accel(a) + normalized_accel(b),
    decreases b.len(),
{
    if b.len() == 0 {
        assert(a + b =~= a);
        assert(normalized_accel(a) + normalized_accel(b) =~= normalized_accel(a));
    } else {
        lemma_normalized_concat(a, b.drop_last());
        assert((a + b).drop_last() =~= a + b.drop_last());
        assert((a + b).last() == b.last());
        if !is_ws(b.last()) {
            assert(normalized_accel(a) + normalized_accel(b.drop_last()) + char_lowercase(b.last())
                =~= normalized_accel(a) + (normalized_accel(b.drop_last()) + char_lowercase(b.last())));
        }
    }
}

/// Whitespace anywhere in an accelerator is ignored: inserting a
/// whitespace character does not change what the accelerator matches.
pub proof fn lemma_accel_ignores_whitespace(a: Seq<char>, w: char, b: Seq<char>)
    requires
        is_ws(w),
    ensures
        normalized_accel(a + seq![w] + b) == normalized_accel(a + b),
{
    lemma_normalized_concat(a + seq![w], b);
    lemma_normalized_concat(a, seq![w]);
    lemma_normalized_concat(a, b);
    assert(seq![w].drop_last() =~= Seq::<char>::empty());
    assert(seq![w].last() == w);
    assert(normalized_accel(Seq::<char>::empty()) =~= Seq::<char>::empty());
    assert(normalized_accel(seq![w]) =~= Seq::<char>::empty());
    assert(normalized_accel(a) + normalized_accel(seq![w]) =~= normalized_accel(a));
}

/// Accelerator matching is case-insensitive: two accelerators whose
/// characters lower-case alike (and are whitespace at the same places)
/// normalise alike.
pub proof fn lemma_accel_case_insensitive(a: Seq<char>, b: Seq<char>)
    requires
        a.len() == b.len(),
        forall|i: int| 0 <= i < a.len() ==> is_ws(#[trigger] a[i]) == is_ws(b[i]),
        forall|i: int| 0 <= i < a.len() && !is_ws(a[i]) ==> char_lowercase(#[trigger] a[i])
            == char_lowercase(b[i]),
    ensures
        normalized_accel(a) == normalized_accel(b),
    decreases a.len(),
{
    if a.len() > 0 {
        lemma_accel_case_insensitive(a.drop_last(), b.drop_last());
        let k = a.len() - 1;
        assert(a.last() == a[k] && b.last() == b[k]);
        assert(is_ws(a[k]) == is_ws(b[k]));
    }
}

/// The window reads a clip's pin state back from the pin button: the
/// label says "Unpin" exactly when the clip is pinned.
pub proof fn lemma_pin_label_read_back(pinned: bool)
    ensures
        occurs_in("Unpin"@, pin_label(pinned)) == pinned,
{
    reveal_strlit("Unpin");
    reveal_strlit("📌 Unpin");
    reveal_strlit("📌 Pin");
    let l = pin_label(pinned);
    assert("Unpin"@.len() == 5);
    if pinned {
        assert(l.subrange(2, 2 + "Unpin"@.len() as int) =~= "Unpin"@);
    } else {
        assert forall|i: int| 0 <= i && i + 5 <= l.len() implies #[trigger] l.subrange(i, i + 5) != "Unpin"@ by {
            assert(i == 0);
            assert(l.subrange(0, 5)[0] != "Unpin"@[0]);
        }
    }
}

/// Stripping leaves no entry that matches the accelerator, keeps every
/// entry that does not, and invents none.
pub proof fn lemma_strip_conflict_exact(current: Seq<Seq<char>>, accel: Seq<char>)
    ensures
        forall|k: int| 0 <= k < without_accel(current, accel).len() ==> normalized_accel(
            #[trigger] without_accel(current, accel)[k],
        ) != normalized_accel(accel),
        forall|k: int| 0 <= k < without_accel(current, accel).len() ==> current.contains(
            #[trigger] without_accel(current, accel)[k],
        ),
        forall|k: int|
            0 <= k < current.len() && normalized_accel(#[trigger] current[k]) != normalized_accel(accel)
                ==> without_accel(current, accel).contains(current[k]),
    decreases current.len(),
{
    if current.len() > 0 {
        let d = current.drop_last();
        lemma_strip_conflict_exact(d, accel);
        let p = without_accel(d, accel);
        let l = current.last();
        let r = without_accel(current, accel);
        assert forall|k: int| 0 <= k < r.len() implies current.contains(#[trigger] r[k]) by {
            if k < p.len() {
                assert(r[k] == p[k]);
                assert(d.contains(p[k]));
                let j = choose|j: int| 0 <= j < d.len() && d[j] == p[k];
                assert(current[j] == p[k]);
            } else {
                assert(r[k] == l);
                assert(current[current.len() - 1] == l);
            }
        }
        assert forall|k: int| 0 <= k < r.len() implies normalized_accel(#[trigger] r[k])
            != normalized_accel(accel) by {
            if k < p.len() {
                assert(r[k] == p[k]);
            }
        }
        assert forall|k: int|
            0 <= k < current.len() && normalized_accel(#[trigger] current[k]) != normalized_accel(accel)
            implies r.contains(current[k]) by {
            if k < current.len() - 1 {
                assert(d[k] == current[k]);
                assert(p.contains(current[k]));
                let j = choose|j: int| 0 <= j < p.len() && p[j] == current[k];
                assert(r[j] == current[k]);
            } else {
                assert(current[k] == l);
                assert(r[r.len() - 1] == l);
            }
        }
    }
}

/// Path of the custom keybinding that launches the history window.
pub open spec fn custom_path() -> Seq<char> {
    "/org/gnome/settings-daemon/plugins/media-keys/custom-keybindings/gnome-clips/"@
}

/// The custom-keybinding list with ours appended, or `None` when it is
/// already registered.
pub fn with_custom_binding(bindings: &[String]) -> (r: Option<Vec<String>>)
    ensures
        views(bindings@).contains(custom_path()) ==> r is None,
        !views(bindings@).contains(custom_path()) ==> (r matches Some(v) && views(v@) == views(
            bindings@,
        ).push(custom_path())),
{
    let mut i: usize = 0;
    while i < bindings.len()
        invariant
            i <= bindings@.len(),
            forall|k: int| 0 <= k < i ==> bindings@[k]@ != custom_path(),
        decreases bindings.len() - i,
    {
        let v = chars_of(bindings[i].as_str());
        if chars_are(&v, "/org/gnome/settings-daemon/plugins/media-keys/custom-keybindings/gnome-clips/") {
            assert(views(bindings@)[i as int] == custom_path());
            return None;
        }
        i = i + 1;
    }
    let mut out: Vec<String> = Vec::new();
    let mut j: usize = 0;
    while j < bindings.len()
        invariant
            j <= bindings@.len(),
            views(out@) == views(bindings@.take(j as int)),
        decreases bindings.len() - j,
    {
        let ghost before = out@;
        let e = bindings[j].clone();
        out.push(e);
        assert(views(out@) =~= views(before).push(bindings@[j as int]@));
        assert(views(bindings@.take(j + 1)) =~= views(bindings@.take(j as int)).push(bindings@[j as int]@));
        j = j + 1;
    }
    assert(bindings@.take(bindings@.len() as int) =~= bindings@);
    let ghost before = out@;
    out.push(String::from_str("/org/gnome/settings-daemon/plugins/media-keys/custom-keybindings/gnome-clips/"));
    assert(views(out@) =~= views(before).push(custom_path()));
    assert(!views(bindings@).contains(custom_path())) by {
        assert forall|k: int| 0 <= k < views(bindings@).len() implies views(bindings@)[k] != custom_path() by {
            assert(views(bindings@)[k] == bindings@[k]@);
        }
    }
    Some(out)
}

// ---------------------------------------------------------------------
// Window keyboard handling.
// ---------------------------------------------------------------------

/// The keys the history window reacts to.
#[derive(Debug, Clone, Copy, PartialEq, Eq)]
pub enum WindowKey {
    Escape,
    Return,
    KeypadEnter,
    Delete,
    P,
    I,
    Other,
}

/// What a key press in the history window does.
#[derive(Debug, Clone, Copy, PartialEq, Eq)]
pub enum KeyAction {
    /// Hide the window.
    Hide,
    /// Paste the selected clip.
    PasteSelected,
    /// Delete the selected clip.
    DeleteSelected,
    /// Flip the pin of the selected clip.
    TogglePinSelected,
    /// Flip incognito mode.
    ToggleIncognito,
    /// Not handled here: let the widget have it.
    Proceed,
}

/// Escape hides, Enter (without Ctrl) pastes, Delete deletes, Ctrl+P
/// flips the pin, Ctrl+I flips incognito; every other key passes through.
pub open spec fn key_action_spec(key: WindowKey, ctrl: bool) -> KeyAction {
    match key {
        WindowKey::Escape => KeyAction::Hide,
        WindowKey::Return | WindowKey::KeypadEnter => if ctrl {
            KeyAction::Proceed
        } else {
            KeyAction::PasteSelected
        },
        WindowKey::Delete => KeyAction::DeleteSelected,
        WindowKey::P => if ctrl { KeyAction::TogglePinSelected } else { KeyAction::Proceed },
        WindowKey::I => if ctrl { KeyAction::ToggleIncognito } else { KeyAction::Proceed },
        WindowKey::Other => KeyAction::Proceed,
    }
}

/// Only Ctrl+I flips incognito and only Ctrl+P flips a pin, so typing a
/// plain `i` or `p` (in the search box, say) does neither; Ctrl+Enter does
/// not paste; Escape always hides; keys the window does not handle pass
/// through.
pub proof fn lemma_control_keys(key: WindowKey, ctrl: bool)
    ensures
        (key_action_spec(key, ctrl) == KeyAction::ToggleIncognito) <==> (key == WindowKey::I && ctrl),
        (key_action_spec(key, ctrl) == KeyAction::TogglePinSelected) <==> (key == WindowKey::P && ctrl),
        (key_action_spec(key, ctrl) == KeyAction::PasteSelected) <==> ((key == WindowKey::Return || key
            == WindowKey::KeypadEnter) && !ctrl),
        (key_action_spec(key, ctrl) == KeyAction::Hide) <==> (key == WindowKey::Escape),
        (key_action_spec(key, ctrl) == KeyAction::DeleteSelected) <==> (key == WindowKey::Delete),
        key == WindowKey::Other ==> key_action_spec(key, ctrl) == KeyAction::Proceed,
{
}

/// The action for a key press, `ctrl` telling whether Control is held.
pub fn key_action(key: WindowKey, ctrl: bool) -> (a: KeyAction)
    ensures
        a == key_action_spec(key, ctrl),
{
    match key {
        WindowKey::Escape => KeyAction::Hide,
        WindowKey::Return | WindowKey::KeypadEnter => if ctrl {
            KeyAction::Proceed
        } else {
            KeyAction::PasteSelected
        },
        WindowKey::Delete => KeyAction::DeleteSelected,
        WindowKey::P => if ctrl {
            KeyAction::TogglePinSelected
        } else {
            KeyAction::Proceed
        },
        WindowKey::I => if ctrl {
            KeyAction::ToggleIncognito
        } else {
            KeyAction::Proceed
        },
        WindowKey::Other => KeyAction::Proceed,
    }
}

/// Whether `s` occurs in `text` as a contiguous run.
pub open spec fn occurs_in(s: Seq<char>, text: Seq<char>) -> bool {
    exists|i: int| 0 <= i && i + s.len() <= text.len() && #[trigger] text.subrange(i, i + s.len()) == s
}

/// The pin button reads "Unpin" when its clip is pinned.
pub fn label_says_pinned(label: &str) -> (b: bool)
    ensures
        b == occurs_in("Unpin"@, label@),
{
    proof {
        reveal_strlit("Unpin");
    }
    let v = chars_of(label);
    let pat = chars_of("Unpin");
    if v.len() < pat.len() {
        assert forall|i: int| 0 <= i && i + pat@.len() <= v@.len() implies #[trigger] v@.subrange(
            i,
            i + pat@.len(),
        ) != pat@ by {}
        return false;
    }
    let last = v.len() - pat.len();
    let mut i: usize = 0;
    while i <= last
        invariant
            last + 5 == v@.len(),
            v@.len() <= usize::MAX,
            pat@ == "Unpin"@,
            pat@.len() == 5,
            v@ == label@,
            forall|j: int| 0 <= j < i && j + 5 <= v@.len() ==> #[trigger] v@.subrange(j, j + 5) != pat@,
        decreases v.len() - i,
    {
        let mut k: usize = 0;
        let mut same = true;
        while k < pat.len()
            invariant
                pat@.len() == 5,
                i <= last,
                last + 5 == v@.len(),
                v@.len() <= usize::MAX,
                k <= 5,
                same == forall|m: int| 0 <= m < k ==> v@[i + m] == pat@[m],
            decreases 5 - k,
        {
            if v[i + k] != pat[k] {
                same = false;
            }
            k = k + 1;
        }
        if same {
            assert(v@.subrange(i as int, i + 5) =~= pat@);
            return true;
        }
        assert(v@.subrange(i as int, i + 5) != pat@) by {
            let m = choose|m: int| 0 <= m < 5 && v@[i + m] != pat@[m];
            assert(v@.subrange(i as int, i + 5)[m] == v@[i + m]);
        }
        i = i + 1;
    }
    false
}

// ---------------------------------------------------------------------
// Tray.
// ---------------------------------------------------------------------

/// Events the tray icon sends to the window.
pub enum PanelEvent {
    Activate,
    ToggleIncognito,
    Quit,
}

/// Icon name of the tray for the incognito state.
pub fn tray_icon_name(incognito: bool) -> (r: &'static str)
    ensures
        r@ == (if incognito { "changes-prevent-symbolic"@ } else { "edit-paste-symbolic"@ }),
{
    if incognito {
        "changes-prevent-symbolic"
    } else {
        "edit-paste-symbolic"
    }
}

/// Label of the tray's incognito menu entry.
pub fn incognito_menu_label(incognito: bool) -> (r: &'static str)
    ensures
        r@ == (if incognito { "Exit Incognito"@ } else { "Enter Incognito"@ }),
{
    if incognito {
        "Exit Incognito"
    } else {
        "Enter Incognito"
    }
}

} // verus!
