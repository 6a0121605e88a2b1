//! Clip records as they travel between the clipboard daemon, its database
//! and the history window.
use vstd::prelude::*;
use crate::textutil::{
    chars_are, chars_of, parse_u32, parse_u32_spec, push_chars, push_str, string_of,
};

verus! {

/// New clipboard content noticed by a monitor.
#[derive(Debug)]
pub struct ClipboardEvent {
    pub content: Vec<u8>,
    pub content_type: String,
    pub source_app: Option<String>,
}

/// A stored clip, content included.
pub struct Clip {
    pub id: i64,
    pub content: Vec<u8>,
    pub content_type: String,
    pub preview: Option<String>,
    pub source_app: Option<String>,
    pub created_at: i64,
    pub pinned: bool,
}

/// A stored clip without its content, as listed in the history.
pub struct ClipRow {
    pub id: i64,
    pub content_type: String,
    pub preview: Option<String>,
    pub source_app: Option<String>,
    pub created_at: i64,
    pub pinned: bool,
}

/// History entry as sent over the bus.
#[derive(Debug, Clone, PartialEq)]
pub struct ClipSummary {
    pub id: i64,
    pub content_type: String,
    pub preview: String,
    pub source_app: String,
    pub created_at: i64,
    pub pinned: bool,
    pub tags: Vec<String>,
}

/// Full clip as sent over the bus.
#[derive(Debug, Clone, PartialEq)]
pub struct ClipDetail {
    pub id: i64,
    pub content_type: String,
    pub preview: String,
    pub source_app: String,
    pub created_at: i64,
    pub pinned: bool,
    pub tags: Vec<String>,
    pub content: Vec<u8>,
}

/// Events the daemon publishes as bus signals.
pub enum DaemonEvent {
    ClipAdded(ClipSummary),
    ClipDeleted(i64),
    ClipUpdated(ClipSummary),
    IncognitoChanged(bool),
}

/// The text of an optional column, empty when absent.
pub open spec fn text_or_empty(s: Option<String>) -> Seq<char> {
    match s {
        Some(t) => t@,
        None => Seq::empty(),
    }
}

fn owned_or_empty(s: &Option<String>) -> (r: String)
    ensures
        r@ == text_or_empty(*s),
{
    match s {
        Some(t) => t.clone(),
        None => String::new(),
    }
}

/// Bus summary of a history row with its tags.
pub fn summary_from_row(row: &ClipRow, tags: Vec<String>) -> (s: ClipSummary)
    ensures
        s.id == row.id,
        s.content_type@ == row.content_type@,
        s.preview@ == text_or_empty(row.preview),
        s.source_app@ == text_or_empty(row.source_app),
        s.created_at == row.created_at,
        s.pinned == row.pinned,
        s.tags == tags,
{
    ClipSummary {
        id: row.id,
        content_type: row.content_type.clone(),
        preview: owned_or_empty(&row.preview),
        source_app: owned_or_empty(&row.source_app),
        created_at: row.created_at,
        pinned: row.pinned,
        tags,
    }
}

/// Bus summary of a stored clip with its tags.
pub fn summary_from_clip(clip: &Clip, tags: Vec<String>) -> (s: ClipSummary)
    ensures
        s.id == clip.id,
        s.content_type@ == clip.content_type@,
        s.preview@ == text_or_empty(clip.preview),
        s.source_app@ == text_or_empty(clip.source_app),
        s.created_at == clip.created_at,
        s.pinned == clip.pinned,
        s.tags == tags,
{
    ClipSummary {
        id: clip.id,
        content_type: clip.content_type.clone(),
        preview: owned_or_empty(&clip.preview),
        source_app: owned_or_empty(&clip.source_app),
        created_at: clip.created_at,
        pinned: clip.pinned,
        tags,
    }
}

/// Bus detail of a stored clip with its tags.
pub fn detail_from_clip(clip: Clip, tags: Vec<String>) -> (d: ClipDetail)
    ensures
        d.id == clip.id,
        d.content_type == clip.content_type,
        d.preview@ == text_or_empty(clip.preview),
        d.source_app@ == text_or_empty(clip.source_app),
        d.created_at == clip.created_at,
        d.pinned == clip.pinned,
        d.tags == tags,
        d.content == clip.content,
{
    let preview = owned_or_empty(&clip.preview);
    let source_app = owned_or_empty(&clip.source_app);
    ClipDetail {
        id: clip.id,
        content_type: clip.content_type,
        preview,
        source_app,
        created_at: clip.created_at,
        pinned: clip.pinned,
        tags,
        content: clip.content,
    }
}

// ---------------------------------------------------------------------
// History ordering in the window: pinned first, newest first, stable.
// ---------------------------------------------------------------------

/// Whether clip `a` is listed before clip `b` (indices into `c`): pinned
/// clips first, newer clips first, and the input order between clips
/// that tie on both.
pub open spec fn listed_before(c: Seq<ClipSummary>, a: int, b: int) -> bool {
    let x = c[a];
    let y = c[b];
    ||| x.pinned && !y.pinned
    ||| x.pinned == y.pinned && x.created_at > y.created_at
    ||| x.pinned == y.pinned && x.created_at == y.created_at && a < b
}

/// `o` lists every clip of `c` exactly once, in display order.
pub open spec fn is_display_order(c: Seq<ClipSummary>, o: Seq<usize>) -> bool {
    &&& o.len() == c.len()
    &&& forall|k: int| 0 <= k < o.len() ==> #[trigger] o[k] < c.len()
    &&& forall|a: usize| a < c.len() ==> #[trigger] o.contains(a)
    &&& forall|i: int, j: int|
        0 <= i < j < o.len() ==> listed_before(c, #[trigger] o[i] as int, #[trigger] o[j] as int)
}

fn listed_before_exec(clips: &[ClipSummary], a: usize, b: usize) -> (r: bool)
    requires
        a < clips@.len(),
        b < clips@.len(),
    ensures
        r == listed_before(clips@, a as int, b as int),
{
    let x = &clips[a];
    let y = &clips[b];
    (x.pinned && !y.pinned) || (x.pinned == y.pinned && x.created_at > y.created_at) || (x.pinned
        == y.pinned && x.created_at == y.created_at && a < b)
}

/// Indices of `clips` in display order.
pub fn display_order(clips: &[ClipSummary]) -> (o: Vec<usize>)
    ensures
        is_display_order(clips@, o@),
{
    let n = clips.len();
    let mut o: Vec<usize> = Vec::new();
    let mut i: usize = 0;
    while i < n
        invariant
            n == clips@.len(),
            i <= n,
            o@.len() == i,
            forall|k: int| 0 <= k < o@.len() ==> #[trigger] o@[k] < i,
            forall|a: usize| a < i ==> #[trigger] o@.contains(a),
            forall|p: int, q: int|
                0 <= p < q < o@.len() ==> listed_before(clips@, #[trigger] o@[p] as int, #[trigger] o@[q] as int),
        decreases n - i,
    {
        let mut p: usize = 0;
        while p < o.len() && listed_before_exec(clips, o[p], i)
            invariant
                n == clips@.len(),
                i < n,
                p <= o@.len(),
                forall|k: int| 0 <= k < o@.len() ==> #[trigger] o@[k] < i,
                forall|k: int| 0 <= k < p ==> listed_before(clips@, #[trigger] o@[k] as int, i as int),
            decreases o.len() - p,
        {
            p = p + 1;
        }
        let ghost old_o = o@;
        proof {
            assert forall|k: int| p <= k < old_o.len() implies listed_before(clips@, i as int, #[trigger] old_o[k] as int) by {
                if k > p {
                    assert(listed_before(clips@, old_o[p as int] as int, old_o[k] as int));
                }
                assert(!listed_before(clips@, old_o[p as int] as int, i as int));
            }
        }
        o.insert(p, i);
        proof {
            assert(o@ == old_o.insert(p as int, i));
            assert forall|k: int| 0 <= k < o@.len() implies #[trigger] o@[k] < i + 1 by {
                if k < p {
                    assert(o@[k] == old_o[k]);
                } else if k > p {
                    assert(o@[k] == old_o[k - 1]);
                }
            }
            assert forall|a: usize| a < i + 1 implies #[trigger] o@.contains(a) by {
                if a == i {
                    assert(o@[p as int] == i);
                } else {
                    assert(old_o.contains(a));
                    let k = choose|k: int| 0 <= k < old_o.len() && old_o[k] == a;
                    if k < p {
                        assert(o@[k] == old_o[k]);
                    } else {
                        assert(o@[k + 1] == old_o[k]);
                    }
                }
            }
            assert forall|x: int, y: int| 0 <= x < y < o@.len() implies listed_before(
                clips@,
                #[trigger] o@[x] as int,
                #[trigger] o@[y] as int,
            ) by {
                if y < p {
                    assert(o@[x] == old_o[x] && o@[y] == old_o[y]);
                } else if y == p {
                    assert(o@[x] == old_o[x]);
                } else if x < p {
                    assert(o@[x] == old_o[x] && o@[y] == old_o[y - 1]);
                } else if x == p {
                    assert(o@[y] == old_o[y - 1]);
                } else {
                    assert(o@[x] == old_o[x - 1] && o@[y] == old_o[y - 1]);
                }
            }
        }
        i = i + 1;
    }
    o
}

/// In display order every pinned clip comes before every unpinned one,
/// and within each group newer clips come first.
pub proof fn lemma_display_order_pins_then_newest(c: Seq<ClipSummary>, o: Seq<usize>)
    requires
        is_display_order(c, o),
    ensures
        forall|i: int, j: int|
            0 <= i < j < o.len() && (#[trigger] c[o[j] as int]).pinned ==> (#[trigger] c[o[i] as int]).pinned,
        forall|i: int, j: int|
            0 <= i < j < o.len() && (#[trigger] c[o[i] as int]).pinned == (#[trigger] c[o[j] as int]).pinned
                ==> c[o[i] as int].created_at >= c[o[j] as int].created_at,
{
    assert forall|i: int, j: int|
        0 <= i < j < o.len() && (#[trigger] c[o[j] as int]).pinned implies (#[trigger] c[o[i] as int]).pinned by {
        assert(listed_before(c, o[i] as int, o[j] as int));
    }
    assert forall|i: int, j: int|
        0 <= i < j < o.len() && (#[trigger] c[o[i] as int]).pinned == (#[trigger] c[o[j] as int]).pinned
        implies c[o[i] as int].created_at >= c[o[j] as int].created_at by {
        assert(listed_before(c, o[i] as int, o[j] as int));
    }
}

/// Sort pinned clips first (newest first within each group).
pub fn sort_clips<'a>(clips: &'a [ClipSummary]) -> (r: Vec<&'a ClipSummary>)
    requires
        forall|k: int| 0 <= k < clips@.len() ==> (#[trigger] clips@[k]).created_at != i64::MIN,
    ensures
        exists|o: Seq<usize>|
            is_display_order(clips@, o) && r@.len() == o.len() && (forall|k: int|
                0 <= k < o.len() ==> *#[trigger] r@[k] == clips@[o[k] as int]),
{
    let o = display_order(clips);
    let mut r: Vec<&'a ClipSummary> = Vec::new();
    let mut k: usize = 0;
    while k < o.len()
        invariant
            is_display_order(clips@, o@),
            k <= o@.len(),
            r@.len() == k,
            forall|j: int| 0 <= j < k ==> *#[trigger] r@[j] == clips@[o@[j] as int],
        decreases o.len() - k,
    {
        r.push(&clips[o[k]]);
        k = k + 1;
    }
    r
}

// ---------------------------------------------------------------------
// Configuration.
// ---------------------------------------------------------------------

/// Daemon configuration read from the settings table.
pub struct Config {
    pub retention_days: u32,
    pub retention_count: u32,
    pub shortcut_key: String,
    pub incognito: bool,
}

/// A numeric setting: its value when present and parseable, else `default`.
pub open spec fn setting_u32(value: Option<String>, default: u32) -> u32 {
    match value {
        Some(v) => match parse_u32_spec(v@) {
            Some(n) => n,
            None => default,
        },
        None => default,
    }
}

/// A flag setting: on exactly for `1` or `true`.
pub open spec fn setting_flag(value: Option<String>) -> bool {
    match value {
        Some(v) => v@ == "1"@ || v@ == "true"@,
        None => false,
    }
}

fn number_or(value: &Option<String>, default: u32) -> (r: u32)
    ensures
        r == setting_u32(*value, default),
{
    match value {
        Some(v) => match parse_u32(v.as_str()) {
            Some(n) => n,
            None => default,
        },
        None => default,
    }
}

impl Config {
    pub const DEFAULT_RETENTION_DAYS: u32 = 7;

    pub const DEFAULT_RETENTION_COUNT: u32 = 100;

    /// The stored settings, with defaults for missing or malformed ones.
    /// Takes the values of `retention_days`, `retention_count`,
    /// `shortcut_key` and `incognito` as read from the settings table.
    pub fn load(
        retention_days: Option<String>,
        retention_count: Option<String>,
        shortcut_key: Option<String>,
        incognito: Option<String>,
    ) -> (c: Config)
        ensures
            c.retention_days == setting_u32(retention_days, 7),
            c.retention_count == setting_u32(retention_count, 100),
            c.shortcut_key@ == match shortcut_key {
                Some(k) => k@,
                None => "Super+V"@,
            },
            c.incognito == setting_flag(incognito),
    {
        let days = number_or(&retention_days, Config::DEFAULT_RETENTION_DAYS);
        let count = number_or(&retention_count, Config::DEFAULT_RETENTION_COUNT);
        let key = match shortcut_key {
            Some(k) => k,
            None => String::from_str("Super+V"),
        };
        let inc = match &incognito {
            Some(v) => {
                let cs = chars_of(v.as_str());
                chars_are(&cs, "1") || chars_are(&cs, "true")
            },
            None => false,
        };
        Config { retention_days: days, retention_count: count, shortcut_key: key, incognito: inc }
    }
}

/// Creation time before which unpinned clips expire: `days` days before
/// `now`.
pub fn retention_cutoff(now: i64, days: u32) -> (c: i64)
    requires
        i64::MIN <= now - days * 86400,
    ensures
        c == now - days * 86400,
{
    now - (days as i64) * 86400
}

/// Whether a newly copied clip is recorded: not in incognito mode and not
/// from an excluded application.
pub fn should_record(incognito: bool, excluded: bool) -> (b: bool)
    ensures
        b == (!incognito && !excluded),
{
    !incognito && !excluded
}

// ---------------------------------------------------------------------
// History query.
// ---------------------------------------------------------------------

/// A bound parameter of the history query.
#[derive(Debug, PartialEq)]
pub enum QueryParam {
    Text(String),
    Integer(i64),
}

/// The type filter of a history request: none for `""` and `"pinned"`.
pub open spec fn type_filter(filter: Seq<char>) -> Option<Seq<char>> {
    if filter.len() == 0 || filter == "pinned"@ {
        None
    } else {
        Some(filter)
    }
}

/// Whether a type filter names a family such as `image/*`.
pub open spec fn is_family(t: Seq<char>) -> bool {
    t.len() >= 2 && t[t.len() - 2] == '/' && t[t.len() - 1] == '*'
}

/// SQL of the history query for `filter` and `search`.
pub open spec fn history_sql(filter: Seq<char>, search: Seq<char>) -> Seq<char> {
    "SELECT id, content_type, preview, source_app, created_at, pinned FROM clips WHERE deleted = 0"@
        + (if filter == "pinned"@ { " AND pinned = 1"@ } else { ""@ })
        + (match type_filter(filter) {
            Some(t) => if is_family(t) { " AND content_type LIKE ?"@ } else { " AND content_type = ?"@ },
            None => ""@,
        })
        + (if search.len() > 0 { " AND preview LIKE ?"@ } else { ""@ })
        + " ORDER BY pinned DESC, created_at DESC LIMIT ? OFFSET ?"@
}

/// Text parameters of the history query, in order: the type pattern (a
/// family `a/*` becomes the LIKE pattern `a/%`), then `%search%`.
pub open spec fn history_text_params(filter: Seq<char>, search: Seq<char>) -> Seq<Seq<char>> {
    (match type_filter(filter) {
        Some(t) => if is_family(t) { seq![t.drop_last().push('%')] } else { seq![t] },
        None => seq![],
    }) + (if search.len() > 0 { seq![seq!['%'] + search + seq!['%']] } else { seq![] })
}

/// Text of the history query before its filter clauses.
pub open spec fn history_select() -> Seq<char> {
    "SELECT id, content_type, preview, source_app, created_at, pinned FROM clips WHERE deleted = 0"@
}

/// Ordering and paging at the end of the history query.
pub open spec fn history_tail() -> Seq<char> {
    " ORDER BY pinned DESC, created_at DESC LIMIT ? OFFSET ?"@
}

/// The Pinned filter restricts the history to pinned clips whatever is
/// searched for: its clause follows the selection directly.
pub proof fn lemma_pinned_filter_kept_with_search(search: Seq<char>)
    ensures
        (history_select() + " AND pinned = 1"@).is_prefix_of(history_sql("pinned"@, search)),
{
    reveal_strlit("pinned");
    reveal_strlit("");
    let q = history_sql("pinned"@, search);
    let h = history_select() + " AND pinned = 1"@;
    assert(q.subrange(0, h.len() as int) =~= h);
}

/// Searching adds one clause and nothing else: the query for a search is
/// the query without one, with `AND preview LIKE ?` put before the
/// ordering; the filter's clauses are the same either way.
pub proof fn lemma_search_adds_one_clause(filter: Seq<char>, search: Seq<char>)
    requires
        search.len() > 0,
    ensures
        history_sql(filter, search) == history_sql(filter, Seq::empty()).take(
            history_sql(filter, Seq::empty()).len() - history_tail().len(),
        ) + " AND preview LIKE ?"@ + history_tail(),
        history_tail().is_suffix_of(history_sql(filter, Seq::empty())),
{
    reveal_strlit("");
    let f = if filter == "pinned"@ { " AND pinned = 1"@ } else { ""@ };
    let t = match type_filter(filter) {
        Some(t) => if is_family(t) { " AND content_type LIKE ?"@ } else { " AND content_type = ?"@ },
        None => ""@,
    };
    let head = history_select() + f + t;
    assert(""@ =~= Seq::<char>::empty());
    assert(history_sql(filter, Seq::empty()) =~= head + history_tail());
    assert((head + history_tail()).take(head.len() as int) =~= head);
    assert(history_sql(filter, search) =~= head + " AND preview LIKE ?"@ + history_tail());
    assert((head + history_tail()).subrange(head.len() as int, (head + history_tail()).len() as int)
        =~= history_tail());
}

/// Query text and parameters listing the history: `filter` is `""` for
/// all clips, `"pinned"` for pinned clips, or a MIME type (`a/*` for a
/// family); `search` matches inside previews. Pinned first, newest first.
pub fn history_query(filter: &str, search: &str, offset: u32, limit: u32) -> (r: (String, Vec<QueryParam>))
    ensures
        r.0@ == history_sql(filter@, search@),
        r.1@.len() == history_text_params(filter@, search@).len() + 2,
        forall|k: int| 0 <= k < history_text_params(filter@, search@).len() ==>
            (r.1@[k] matches QueryParam::Text(t) && t@ == #[trigger] history_text_params(filter@, search@)[k]),
        r.1@[r.1@.len() - 2] == QueryParam::Integer(limit as i64),
        r.1@[r.1@.len() - 1] == QueryParam::Integer(offset as i64),
{
    proof {
        reveal_strlit("");
        assert(""@ =~= Seq::<char>::empty());
    }
    let f = chars_of(filter);
    let s = chars_of(search);
    let pinned_only = chars_are(&f, "pinned");
    let has_type = f.len() > 0 && !pinned_only;
    let family = has_type && f.len() >= 2 && f[f.len() - 2] == '/' && f[f.len() - 1] == '*';
    let mut sql: Vec<char> = Vec::new();
    push_str(&mut sql, "SELECT id, content_type, preview, source_app, created_at, pinned FROM clips WHERE deleted = 0");
    if pinned_only {
        push_str(&mut sql, " AND pinned = 1");
    }
    if has_type {
        if family {
            push_str(&mut sql, " AND content_type LIKE ?");
        } else {
            push_str(&mut sql, " AND content_type = ?");
        }
    }
    if s.len() > 0 {
        push_str(&mut sql, " AND preview LIKE ?");
    }
    push_str(&mut sql, " ORDER BY pinned DESC, created_at DESC LIMIT ? OFFSET ?");
    let mut params: Vec<QueryParam> = Vec::new();
    let ghost texts = history_text_params(filter@, search@);
    if has_type {
        if family {
            let mut t: Vec<char> = Vec::new();
            let mut i: usize = 0;
            while i < f.len() - 1
                invariant
                    f@.len() >= 2,
                    i <= f@.len() - 1,
                    t@ == f@.take(i as int),
                decreases f.len() - 1 - i,
            {
                t.push(f[i]);
                i = i + 1;
                assert(f@.take(i as int) == f@.take((i - 1) as int).push(f@[i - 1]));
            }
            assert(f@.take(f@.len() - 1) =~= f@.drop_last());
            t.push('%');
            params.push(QueryParam::Text(string_of(&t)));
        } else {
            params.push(QueryParam::Text(string_of(&f)));
        }
    }
    if s.len() > 0 {
        let mut p: Vec<char> = Vec::new();
        p.push('%');
        push_chars(&mut p, &s);
        p.push('%');
        params.push(QueryParam::Text(string_of(&p)));
        assert(p@ =~= seq!['%'] + search@ + seq!['%']);
    }
    proof {
        assert(params@.len() == texts.len());
        assert forall|k: int| 0 <= k < texts.len() implies (params@[k] matches QueryParam::Text(t) && t@
            == #[trigger] texts[k]) by {
        }
    }
    params.push(QueryParam::Integer(limit as i64));
    params.push(QueryParam::Integer(offset as i64));
    (string_of(&sql), params)
}

} // verus!
