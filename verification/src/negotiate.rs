//! Content negotiation: the result and graph formats the server can
//! produce, and the selection of one from an `Accept` header.
//!
//! The header is read as comma-separated media ranges, each with an
//! optional `q` weight (default 1, ties broken by first-seen order);
//! wildcard subtypes resolve through a fixed default per base type,
//! explicit subtypes through the format registry; an empty header selects
//! the endpoint's default, and a header offering nothing usable is not
//! acceptable.

use vstd::prelude::*;

use crate::errors::StoreError;

verus! {

// ------------------------------------------------------------------
// Text helpers
// ------------------------------------------------------------------
/// Whitespace that surrounds tokens in header values.
pub open spec fn is_space(c: char) -> bool {
    c == ' ' || c == '\t'
}

/// The first index where `c` stands, or the length when it is absent.
pub open spec fn find_char(s: Seq<char>, c: char) -> int
    decreases s.len(),
{
    if s.len() == 0 {
        0
    } else if s[0] == c {
        0
    } else {
        1 + find_char(s.drop_first(), c)
    }
}

/// The last index where `c` stands, or `-1` when it is absent.
pub open spec fn rfind_char(s: Seq<char>, c: char) -> int
    decreases s.len(),
{
    if s.len() == 0 {
        -1
    } else if s.last() == c {
        s.len() - 1
    } else {
        rfind_char(s.drop_last(), c)
    }
}

/// The text without its leading whitespace.
pub open spec fn ltrim(s: Seq<char>) -> Seq<char>
    decreases s.len(),
{
    if s.len() > 0 && is_space(s[0]) {
        ltrim(s.drop_first())
    } else {
        s
    }
}

/// The text without its trailing whitespace.
pub open spec fn rtrim(s: Seq<char>) -> Seq<char>
    decreases s.len(),
{
    if s.len() > 0 && is_space(s.last()) {
        rtrim(s.drop_last())
    } else {
        s
    }
}

/// The text without surrounding whitespace.
pub open spec fn trim(s: Seq<char>) -> Seq<char> {
    rtrim(ltrim(s))
}

/// `find_char` never goes below zero.
proof fn lemma_find_char_nonneg(s: Seq<char>, c: char)
    ensures
        find_char(s, c) >= 0,
    decreases s.len(),
{
    if s.len() > 0 && s[0] != c {
        lemma_find_char_nonneg(s.drop_first(), c);
    }
}

/// The pieces of `s` split on `sep`, in order; `s` with no separator is one
/// piece.
pub open spec fn spec_split(s: Seq<char>, sep: char) -> Seq<Seq<char>>
    decreases s.len(),
    via spec_split_decreases
{
    let i = find_char(s, sep);
    if i >= s.len() {
        seq![s]
    } else {
        seq![s.subrange(0, i)] + spec_split(s.subrange(i + 1, s.len() as int), sep)
    }
}

#[via_fn]
proof fn spec_split_decreases(s: Seq<char>, sep: char) {
    lemma_find_char_nonneg(s, sep);
}

/// A character folded to lower case, for ASCII letters.
pub open spec fn lower_char(c: char) -> char {
    if 'A' <= c && c <= 'Z' {
        (((c as u32) + 32) as u8) as char
    } else {
        c
    }
}

/// Case-insensitive equality over ASCII letters.
pub open spec fn eq_ci(a: Seq<char>, b: Seq<char>) -> bool {
    a.len() == b.len() && forall|i: int|
        0 <= i < a.len() ==> lower_char(#[trigger] a[i]) == lower_char(b[i])
}

/// `find_char` is characterized by the first occurrence.
proof fn lemma_find_char_at(s: Seq<char>, c: char, i: int)
    requires
        0 <= i <= s.len(),
        forall|j: int| 0 <= j < i ==> s[j] != c,
        i < s.len() ==> s[i] == c,
    ensures
        find_char(s, c) == i,
    decreases s.len(),
{
    if s.len() == 0 {
    } else if i == 0 {
    } else {
        assert(s[0] != c);
        lemma_find_char_at(s.drop_first(), c, i - 1);
    }
}

/// `rfind_char` is characterized by the last occurrence.
proof fn lemma_rfind_char_at(s: Seq<char>, c: char, i: int)
    requires
        -1 <= i < s.len(),
        forall|j: int| i < j < s.len() ==> s[j] != c,
        i >= 0 ==> s[i] == c,
    ensures
        rfind_char(s, c) == i,
    decreases s.len(),
{
    if s.len() == 0 {
    } else if i == s.len() - 1 {
    } else {
        assert(s.last() != c);
        lemma_rfind_char_at(s.drop_last(), c, i);
    }
}

/// `ltrim` is characterized by the first non-space position.
proof fn lemma_ltrim_at(s: Seq<char>, a: int)
    requires
        0 <= a <= s.len(),
        forall|j: int| 0 <= j < a ==> is_space(#[trigger] s[j]),
        a < s.len() ==> !is_space(s[a]),
    ensures
        ltrim(s) == s.subrange(a, s.len() as int),
    decreases s.len(),
{
    if a == 0 {
        if s.len() > 0 && is_space(s[0]) {
            assert(false);
        }
        assert(s.subrange(0, s.len() as int) =~= s);
    } else {
        assert(is_space(s[0]));
        lemma_ltrim_at(s.drop_first(), a - 1);
        assert(s.drop_first().subrange(a - 1, s.len() - 1) =~= s.subrange(a, s.len() as int));
    }
}

/// `rtrim` is characterized by the last non-space position.
proof fn lemma_rtrim_at(s: Seq<char>, b: int)
    requires
        0 <= b <= s.len(),
        forall|j: int| b <= j < s.len() ==> is_space(#[trigger] s[j]),
        b > 0 ==> !is_space(s[b - 1]),
    ensures
        rtrim(s) == s.subrange(0, b),
    decreases s.len(),
{
    if b == s.len() {
        if s.len() > 0 && is_space(s.last()) {
            assert(false);
        }
        assert(s.subrange(0, s.len() as int) =~= s);
    } else {
        assert(is_space(s.last()));
        lemma_rtrim_at(s.drop_last(), b);
        assert(s.drop_last().subrange(0, b) =~= s.subrange(0, b));
    }
}

/// The views of a sequence of strings.
pub open spec fn str_views(v: Seq<String>) -> Seq<Seq<char>> {
    v.map_values(|x: String| x@)
}

/// Whether a character is surrounded-whitespace, decided as [`is_space`].
fn space_char(c: char) -> (b: bool)
    ensures
        b == is_space(c),
{
    c == ' ' || c == '\t'
}

/// The first index where `c` stands, or the length.
pub(crate) fn find_char_exec(s: &str, c: char) -> (i: usize)
    ensures
        i as int == find_char(s@, c),
        i <= s@.len(),
        i < s@.len() ==> s@[i as int] == c,
        forall|j: int| 0 <= j < i ==> s@[j] != c,
{
    let n = s.unicode_len();
    let mut i: usize = 0;
    while i < n
        invariant
            0 <= i <= n,
            n == s@.len(),
            forall|j: int| 0 <= j < i ==> s@[j] != c,
        decreases n - i,
    {
        if s.get_char(i) == c {
            proof {
                lemma_find_char_at(s@, c, i as int);
            }
            return i;
        }
        i = i + 1;
    }
    proof {
        lemma_find_char_at(s@, c, n as int);
    }
    n
}

/// The last index where `c` stands, or the length when it is absent (so
/// that the caller can test against the length).
fn rfind_char_exec(s: &str, c: char) -> (r: Option<usize>)
    ensures
        match r {
            Some(i) => rfind_char(s@, c) == i as int && i < s@.len() && s@[i as int] == c,
            None => rfind_char(s@, c) == -1,
        },
{
    let n = s.unicode_len();
    let mut i: usize = n;
    loop
        invariant_except_break
            0 <= i <= n,
            n == s@.len(),
            forall|j: int| i <= j < n ==> s@[j] != c,
        ensures
            0 <= i <= n,
            n == s@.len(),
            forall|j: int| i <= j < n ==> s@[j] != c,
            i > 0 ==> s@[i - 1] == c,
        decreases i,
    {
        if i == 0 {
            break;
        }
        if s.get_char(i - 1) == c {
            break;
        }
        i = i - 1;
    }
    if i == 0 {
        proof {
            lemma_rfind_char_at(s@, c, -1);
        }
        None
    } else {
        proof {
            lemma_rfind_char_at(s@, c, i - 1);
        }
        Some(i - 1)
    }
}

/// The text without surrounding whitespace.
pub(crate) fn trim_exec(s: &str) -> (r: String)
    ensures
        r@ == trim(s@),
{
    let n = s.unicode_len();
    let mut a: usize = 0;
    while a < n && space_char(s.get_char(a))
        invariant
            0 <= a <= n,
            n == s@.len(),
            forall|j: int| 0 <= j < a ==> is_space(#[trigger] s@[j]),
        decreases n - a,
    {
        a = a + 1;
    }
    let mut b: usize = n;
    while b > a && space_char(s.get_char(b - 1))
        invariant
            a <= b <= n,
            n == s@.len(),
            forall|j: int| b <= j < n ==> is_space(#[trigger] s@[j]),
        decreases b,
    {
        b = b - 1;
    }
    proof {
        lemma_ltrim_at(s@, a as int);
        let lt = s@.subrange(a as int, n as int);
        if b == a {
            lemma_rtrim_at(lt, 0);
        } else {
            assert(!is_space(s@[b - 1]));
            lemma_rtrim_at(lt, b - a);
        }
        assert(lt.subrange(0, b - a) =~= s@.subrange(a as int, b as int));
    }
    let piece = s.substring_char(a, b);
    proof {
        assert(piece@ =~= s@.subrange(a as int, b as int));
    }
    piece.to_owned()
}

/// Case-insensitive equality with a known token.
pub(crate) fn eq_ci_exec(a: &str, b: &str) -> (r: bool)
    ensures
        r == eq_ci(a@, b@),
{
    let n = a.unicode_len();
    let m = b.unicode_len();
    if n != m {
        return false;
    }
    let mut i: usize = 0;
    while i < n
        invariant
            0 <= i <= n,
            n == a@.len(),
            n == b@.len(),
            forall|j: int| 0 <= j < i ==> lower_char(#[trigger] a@[j]) == lower_char(b@[j]),
        decreases n - i,
    {
        let ca = a.get_char(i);
        let cb = b.get_char(i);
        let la = if 'A' <= ca && ca <= 'Z' {
            (((ca as u32) + 32) as u8) as char
        } else {
            ca
        };
        let lb = if 'A' <= cb && cb <= 'Z' {
            (((cb as u32) + 32) as u8) as char
        } else {
            cb
        };
        if la != lb {
            return false;
        }
        i = i + 1;
    }
    true
}

/// Splits on a separator; the pieces concatenated with the separator give
/// the input back.
fn split_exec(s: &str, sep: char) -> (r: Vec<String>)
    ensures
        str_views(r@) == spec_split(s@, sep),
{
    let mut r: Vec<String> = Vec::new();
    let mut rest = s.to_owned();
    let ghost full = s@;
    loop
        invariant
            full == s@,
            spec_split(full, sep) == str_views(r@) + spec_split(rest@, sep),
        decreases rest@.len(),
    {
        let rs = rest.as_str();
        let n = rs.unicode_len();
        let i = find_char_exec(rs, sep);
        let ghost r_old = r@;
        if i >= n {
            let ghost rest_g = rest@;
            r.push(rest);
            proof {
                assert(spec_split(rest_g, sep) =~~= seq![rest_g]);
                assert(str_views(r@) =~~= str_views(r_old) + seq![rest_g]);
                assert(spec_split(full, sep) =~~= str_views(r@));
            }
            return r;
        }
        let piece = rs.substring_char(0, i);
        let tail = rs.substring_char(i + 1, n);
        proof {
            assert(piece@ =~= rest@.subrange(0, i as int));
            assert(tail@ =~= rest@.subrange(i + 1, rest@.len() as int));
            assert(spec_split(rest@, sep) == seq![rest@.subrange(0, i as int)] + spec_split(
                tail@,
                sep,
            ));
        }
        let piece_owned = piece.to_owned();
        let tail_owned = tail.to_owned();
        r.push(piece_owned);
        proof {
            assert(str_views(r@) =~~= str_views(r_old) + seq![rest@.subrange(0, i as int)]);
            assert(str_views(r_old) + spec_split(rest@, sep) =~~= (str_views(r_old) + seq![
                rest@.subrange(0, i as int),
            ]) + spec_split(tail@, sep));
        }
        rest = tail_owned;
    }
}

// ------------------------------------------------------------------
// Formats
// ------------------------------------------------------------------
/// A graph serialization the server can produce.
#[derive(Clone, Copy, Debug, PartialEq, Eq, Structural)]
pub enum RdfFormatKind {
    JsonLd,
    N3,
    NQuads,
    NTriples,
    RdfXml,
    TriG,
    Turtle,
}

/// A tabular/boolean result serialization the server can produce.
#[derive(Clone, Copy, Debug, PartialEq, Eq, Structural)]
pub enum QueryResultsFormatKind {
    Json,
    Xml,
    Csv,
    Tsv,
}

/// The graph format registered for a media subtype (after case folding and
/// an `x-` prefix strip).
pub open spec fn spec_rdf_subtype(sub: Seq<char>) -> Option<RdfFormatKind> {
    if eq_ci(sub, "activity+json"@) || eq_ci(sub, "json"@) || eq_ci(sub, "ld+json"@) || eq_ci(
        sub,
        "jsonld"@,
    ) {
        Some(RdfFormatKind::JsonLd)
    } else if eq_ci(sub, "n-quads"@) || eq_ci(sub, "nquads"@) {
        Some(RdfFormatKind::NQuads)
    } else if eq_ci(sub, "n-triples"@) || eq_ci(sub, "ntriples"@) || eq_ci(sub, "plain"@) {
        Some(RdfFormatKind::NTriples)
    } else if eq_ci(sub, "n3"@) {
        Some(RdfFormatKind::N3)
    } else if eq_ci(sub, "rdf+xml"@) || eq_ci(sub, "xml"@) {
        Some(RdfFormatKind::RdfXml)
    } else if eq_ci(sub, "trig"@) {
        Some(RdfFormatKind::TriG)
    } else if eq_ci(sub, "turtle"@) {
        Some(RdfFormatKind::Turtle)
    } else {
        None
    }
}

/// The result format registered for a media subtype.
pub open spec fn spec_results_subtype(sub: Seq<char>) -> Option<QueryResultsFormatKind> {
    if eq_ci(sub, "csv"@) || eq_ci(sub, "plain"@) {
        Some(QueryResultsFormatKind::Csv)
    } else if eq_ci(sub, "json"@) || eq_ci(sub, "sparql-results+json"@) {
        Some(QueryResultsFormatKind::Json)
    } else if eq_ci(sub, "sparql-results+xml"@) || eq_ci(sub, "xml"@) {
        Some(QueryResultsFormatKind::Xml)
    } else if eq_ci(sub, "tab-separated-values"@) || eq_ci(sub, "tsv"@) {
        Some(QueryResultsFormatKind::Tsv)
    } else {
        None
    }
}

/// The media type and subtype of a media range: the part before the first
/// `;`, split at its first `/` and trimmed; no `/` means no media type.
pub open spec fn spec_media_parts(media: Seq<char>) -> Option<(Seq<char>, Seq<char>)> {
    let ts = media.subrange(0, find_char(media, ';'));
    let sl = find_char(ts, '/');
    if sl >= ts.len() {
        None
    } else {
        Some((trim(ts.subrange(0, sl)), trim(ts.subrange(sl + 1, ts.len() as int))))
    }
}

/// A subtype with its optional `x-` prefix stripped.
pub open spec fn strip_x(sub: Seq<char>) -> Seq<char> {
    if sub.len() >= 2 && eq_ci(sub.subrange(0, 2), "x-"@) {
        sub.subrange(2, sub.len() as int)
    } else {
        sub
    }
}

/// The graph format a full media range names, if any: the base type must be
/// `application` or `text`, and the subtype must be registered.
pub open spec fn spec_rdf_format_from(media: Seq<char>) -> Option<RdfFormatKind> {
    match spec_media_parts(media) {
        None => None,
        Some((ty, sub)) => {
            if eq_ci(ty, "application"@) || eq_ci(ty, "text"@) {
                spec_rdf_subtype(strip_x(sub))
            } else {
                None
            }
        },
    }
}

/// The result format a full media range names, if any.
pub open spec fn spec_results_format_from(media: Seq<char>) -> Option<QueryResultsFormatKind> {
    match spec_media_parts(media) {
        None => None,
        Some((ty, sub)) => {
            if eq_ci(ty, "application"@) || eq_ci(ty, "text"@) {
                spec_results_subtype(strip_x(sub))
            } else {
                None
            }
        },
    }
}

/// Splits a media range into its trimmed type and subtype.
fn media_parts_exec(media: &str) -> (r: Option<(String, String)>)
    ensures
        match r {
            Some((ty, sub)) => spec_media_parts(media@) == Some((ty@, sub@)),
            None => spec_media_parts(media@) is None,
        },
{
    let n = media.unicode_len();
    let semi = find_char_exec(media, ';');
    let ts = media.substring_char(0, semi);
    proof {
        assert(ts@ =~= media@.subrange(0, find_char(media@, ';')));
    }
    let m = ts.unicode_len();
    let sl = find_char_exec(ts, '/');
    if sl >= m {
        return None;
    }
    let ty_raw = ts.substring_char(0, sl);
    let sub_raw = ts.substring_char(sl + 1, m);
    proof {
        assert(ty_raw@ =~= ts@.subrange(0, sl as int));
        assert(sub_raw@ =~= ts@.subrange(sl + 1, ts@.len() as int));
    }
    let ty = trim_exec(ty_raw);
    let sub = trim_exec(sub_raw);
    Some((ty, sub))
}

/// Strips an `x-` prefix from a subtype.
fn strip_x_exec(sub: &String) -> (r: String)
    ensures
        r@ == strip_x(sub@),
{
    let ss = sub.as_str();
    let n = ss.unicode_len();
    if n >= 2 {
        let head = ss.substring_char(0, 2);
        proof {
            assert(head@ =~= sub@.subrange(0, 2));
        }
        if eq_ci_exec(head, "x-") {
            let rest = ss.substring_char(2, n);
            proof {
                assert(rest@ =~= sub@.subrange(2, sub@.len() as int));
            }
            return rest.to_owned();
        }
    }
    sub.clone()
}

/// The graph format a media range names, decided as
/// [`spec_rdf_format_from`].
pub fn rdf_format_from_media_type(media: &str) -> (r: Option<RdfFormatKind>)
    ensures
        r == spec_rdf_format_from(media@),
{
    let (ty, sub) = match media_parts_exec(media) {
        Some(p) => p,
        None => {
            return None;
        },
    };
    if !(eq_ci_exec(ty.as_str(), "application") || eq_ci_exec(ty.as_str(), "text")) {
        return None;
    }
    let sub = strip_x_exec(&sub);
    let s = sub.as_str();
    if eq_ci_exec(s, "activity+json") || eq_ci_exec(s, "json") || eq_ci_exec(s, "ld+json")
        || eq_ci_exec(s, "jsonld") {
        Some(RdfFormatKind::JsonLd)
    } else if eq_ci_exec(s, "n-quads") || eq_ci_exec(s, "nquads") {
        Some(RdfFormatKind::NQuads)
    } else if eq_ci_exec(s, "n-triples") || eq_ci_exec(s, "ntriples") || eq_ci_exec(s, "plain") {
        Some(RdfFormatKind::NTriples)
    } else if eq_ci_exec(s, "n3") {
        Some(RdfFormatKind::N3)
    } else if eq_ci_exec(s, "rdf+xml") || eq_ci_exec(s, "xml") {
        Some(RdfFormatKind::RdfXml)
    } else if eq_ci_exec(s, "trig") {
        Some(RdfFormatKind::TriG)
    } else if eq_ci_exec(s, "turtle") {
        Some(RdfFormatKind::Turtle)
    } else {
        None
    }
}

/// The result format a media range names, decided as
/// [`spec_results_format_from`].
pub fn results_format_from_media_type(media: &str) -> (r: Option<QueryResultsFormatKind>)
    ensures
        r == spec_results_format_from(media@),
{
    let (ty, sub) = match media_parts_exec(media) {
        Some(p) => p,
        None => {
            return None;
        },
    };
    if !(eq_ci_exec(ty.as_str(), "application") || eq_ci_exec(ty.as_str(), "text")) {
        return None;
    }
    let sub = strip_x_exec(&sub);
    let s = sub.as_str();
    if eq_ci_exec(s, "csv") || eq_ci_exec(s, "plain") {
        Some(QueryResultsFormatKind::Csv)
    } else if eq_ci_exec(s, "json") || eq_ci_exec(s, "sparql-results+json") {
        Some(QueryResultsFormatKind::Json)
    } else if eq_ci_exec(s, "sparql-results+xml") || eq_ci_exec(s, "xml") {
        Some(QueryResultsFormatKind::Xml)
    } else if eq_ci_exec(s, "tab-separated-values") || eq_ci_exec(s, "tsv") {
        Some(QueryResultsFormatKind::Tsv)
    } else {
        None
    }
}

impl RdfFormatKind {
    /// The media type written into the response's `Content-Type`.
    pub fn media_type(&self) -> (r: String)
        ensures
            r@ == spec_rdf_media_type(*self),
    {
        match self {
            RdfFormatKind::JsonLd => String::from_str("application/ld+json"),
            RdfFormatKind::N3 => String::from_str("text/n3"),
            RdfFormatKind::NQuads => String::from_str("application/n-quads"),
            RdfFormatKind::NTriples => String::from_str("application/n-triples"),
            RdfFormatKind::RdfXml => String::from_str("application/rdf+xml"),
            RdfFormatKind::TriG => String::from_str("application/trig"),
            RdfFormatKind::Turtle => String::from_str("text/turtle"),
        }
    }
}

/// Whether a graph format can carry named graphs, so that a whole dataset
/// can be serialized in it.
pub open spec fn spec_supports_datasets(f: RdfFormatKind) -> bool {
    f is JsonLd || f is NQuads || f is TriG
}

impl RdfFormatKind {
    /// Whether this format can carry named graphs, decided as
    /// [`spec_supports_datasets`].
    pub fn supports_datasets(&self) -> (b: bool)
        ensures
            b == spec_supports_datasets(*self),
    {
        match self {
            RdfFormatKind::JsonLd => true,
            RdfFormatKind::NQuads => true,
            RdfFormatKind::TriG => true,
            _ => false,
        }
    }
}

/// The media type of a graph format.
pub open spec fn spec_rdf_media_type(f: RdfFormatKind) -> Seq<char> {
    match f {
        RdfFormatKind::JsonLd => "application/ld+json"@,
        RdfFormatKind::N3 => "text/n3"@,
        RdfFormatKind::NQuads => "application/n-quads"@,
        RdfFormatKind::NTriples => "application/n-triples"@,
        RdfFormatKind::RdfXml => "application/rdf+xml"@,
        RdfFormatKind::TriG => "application/trig"@,
        RdfFormatKind::Turtle => "text/turtle"@,
    }
}

impl QueryResultsFormatKind {
    /// The media type written into the response's `Content-Type`.
    pub fn media_type(&self) -> (r: String)
        ensures
            r@ == spec_results_media_type(*self),
    {
        match self {
            QueryResultsFormatKind::Json => String::from_str("application/sparql-results+json"),
            QueryResultsFormatKind::Xml => String::from_str("application/sparql-results+xml"),
            QueryResultsFormatKind::Csv => String::from_str("text/csv; charset=utf-8"),
            QueryResultsFormatKind::Tsv => String::from_str(
                "text/tab-separated-values; charset=utf-8",
            ),
        }
    }
}

/// The media type of a result format.
pub open spec fn spec_results_media_type(f: QueryResultsFormatKind) -> Seq<char> {
    match f {
        QueryResultsFormatKind::Json => "application/sparql-results+json"@,
        QueryResultsFormatKind::Xml => "application/sparql-results+xml"@,
        QueryResultsFormatKind::Csv => "text/csv; charset=utf-8"@,
        QueryResultsFormatKind::Tsv => "text/tab-separated-values; charset=utf-8"@,
    }
}

// ------------------------------------------------------------------
// Quality weights
// ------------------------------------------------------------------
/// The numeric value of a digit character.
pub open spec fn digit_val(c: char) -> int {
    (c as u32) - 48
}

/// Whether the text is digits only.
pub open spec fn all_digits(s: Seq<char>) -> bool {
    forall|i: int| 0 <= i < s.len() ==> '0' <= #[trigger] s[i] && s[i] <= '9'
}

/// The number the digit text stands for.
pub open spec fn digits_val(s: Seq<char>) -> int
    decreases s.len(),
{
    if s.len() == 0 {
        0
    } else {
        digits_val(s.drop_last()) * 10 + digit_val(s.last())
    }
}

/// Ten to the `n`.
pub open spec fn pow10(n: int) -> int
    decreases n,
{
    if n <= 0 {
        1
    } else {
        10 * pow10(n - 1)
    }
}

/// A digit text's value stays under ten to its length.
proof fn lemma_digits_val_bound(s: Seq<char>)
    requires
        all_digits(s),
    ensures
        0 <= digits_val(s) < pow10(s.len() as int),
    decreases s.len(),
{
    if s.len() > 0 {
        lemma_digits_val_bound(s.drop_last());
        assert('0' <= s.last() && s.last() <= '9');
        assert(0 <= digit_val(s.last()) <= 9);
    }
}

/// Ten to a small power is small.
proof fn lemma_pow10_small(n: int)
    requires
        0 <= n <= 8,
    ensures
        pow10(n) <= 100000000,
{
    assert(pow10(0) == 1);
    assert(pow10(1) == 10);
    assert(pow10(2) == 100);
    assert(pow10(3) == 1000);
    assert(pow10(4) == 10000);
    assert(pow10(5) == 100000);
    assert(pow10(6) == 1000000);
    assert(pow10(7) == 10000000);
    assert(pow10(8) == 100000000);
}

/// A `q` weight read as thousandths: an integer part with up to three
/// decimal digits after an optional dot; anything else is malformed.
pub open spec fn parse_q(s: Seq<char>) -> Option<int> {
    if s.len() == 0 || s.len() > 8 {
        None
    } else {
        let d = find_char(s, '.');
        if d >= s.len() {
            if all_digits(s) {
                Some(digits_val(s) * 1000)
            } else {
                None
            }
        } else {
            let ip = s.subrange(0, d);
            let fp = s.subrange(d + 1, s.len() as int);
            if all_digits(ip) && all_digits(fp) && 1 <= fp.len() <= 3 {
                Some(digits_val(ip) * 1000 + digits_val(fp) * (if fp.len() == 1 {
                    100int
                } else if fp.len() == 2 {
                    10int
                } else {
                    1int
                }))
            } else {
                None
            }
        }
    }
}

/// Reads a digit run into a number.
fn digits_exec(s: &str) -> (r: Option<u64>)
    requires
        s@.len() <= 8,
    ensures
        match r {
            Some(v) => all_digits(s@) && v as int == digits_val(s@),
            None => !all_digits(s@),
        },
{
    let n = s.unicode_len();
    let mut acc: u64 = 0;
    let mut i: usize = 0;
    proof {
        assert(s@.subrange(0, 0) =~= Seq::<char>::empty());
    }
    while i < n
        invariant
            0 <= i <= n,
            n == s@.len(),
            n <= 8,
            all_digits(s@.subrange(0, i as int)),
            acc as int == digits_val(s@.subrange(0, i as int)),
            (acc as int) < pow10(i as int),
        decreases n - i,
    {
        let c = s.get_char(i);
        if !('0' <= c && c <= '9') {
            proof {
                assert(!all_digits(s@));
            }
            return None;
        }
        let d = (c as u32) - 48;
        proof {
            lemma_digits_val_bound(s@.subrange(0, i as int));
            lemma_pow10_small(i as int);
            let pre = s@.subrange(0, i as int);
            let cur = s@.subrange(0, i + 1 as int);
            assert(cur.drop_last() =~= pre);
            assert(cur.last() == c);
        }
        acc = acc * 10 + (d as u64);
        i = i + 1;
    }
    proof {
        assert(s@.subrange(0, n as int) =~= s@);
    }
    Some(acc)
}

/// Reads a `q` weight into thousandths, as [`parse_q`] describes.
fn parse_q_exec(s: &str) -> (r: Option<u64>)
    ensures
        match r {
            Some(v) => parse_q(s@) == Some(v as int),
            None => parse_q(s@) is None,
        },
{
    let n = s.unicode_len();
    if n == 0 || n > 8 {
        return None;
    }
    let d = find_char_exec(s, '.');
    if d >= n {
        match digits_exec(s) {
            Some(v) => {
                proof {
                    lemma_digits_val_bound(s@);
                    lemma_pow10_small(s@.len() as int);
                }
                Some(v * 1000)
            },
            None => None,
        }
    } else {
        let ip = s.substring_char(0, d);
        let fp = s.substring_char(d + 1, n);
        proof {
            assert(ip@ =~= s@.subrange(0, d as int));
            assert(fp@ =~= s@.subrange(d + 1, s@.len() as int));
        }
        let fp_len = fp.unicode_len();
        if !(1 <= fp_len && fp_len <= 3) {
            return None;
        }
        let iv = match digits_exec(ip) {
            Some(v) => v,
            None => {
                return None;
            },
        };
        let fv = match digits_exec(fp) {
            Some(v) => v,
            None => {
                return None;
            },
        };
        proof {
            lemma_digits_val_bound(ip@);
            lemma_pow10_small(ip@.len() as int);
            lemma_digits_val_bound(fp@);
            lemma_pow10_small(fp@.len() as int);
        }
        let scale: u64 = if fp_len == 1 {
            100
        } else if fp_len == 2 {
            10
        } else {
            1
        };
        Some(iv * 1000 + fv * scale)
    }
}

// ------------------------------------------------------------------
// Negotiation
// ------------------------------------------------------------------
/// Why negotiation failed: a malformed weight or media range rejects the
/// request, a header offering nothing usable is not acceptable.
pub enum NegotiationFailure {
    InvalidScore,
    InvalidMediaType,
    NotAcceptable,
}

/// A media range split from its trailing `q` parameter: the media part, and
/// the weight text when the last parameter is a `q`.
pub open spec fn piece_media_and_q(piece: Seq<char>) -> (Seq<char>, Option<Seq<char>>) {
    let k = rfind_char(piece, ';');
    if k < 0 {
        (piece, None)
    } else {
        let param = piece.subrange(k + 1, piece.len() as int);
        let eq = find_char(param, '=');
        if eq >= param.len() {
            (piece, None)
        } else {
            if eq_ci(trim(param.subrange(0, eq)), "q"@) {
                (piece.subrange(0, k), Some(trim(param.subrange(eq + 1, param.len() as int))))
            } else {
                (piece, None)
            }
        }
    }
}

/// One pass of the negotiation fold over the remaining media ranges, for
/// graph formats: a range with a malformed weight or media type rejects,
/// one that does not beat the best seen is skipped, wildcards fall back to
/// the default, and a recognized format with a strictly better weight
/// becomes the new best.
pub open spec fn neg_fold_rdf(
    pieces: Seq<Seq<char>>,
    dflt: RdfFormatKind,
    best: Option<RdfFormatKind>,
    best_score: int,
) -> Result<Option<RdfFormatKind>, NegotiationFailure>
    decreases pieces.len(),
{
    if pieces.len() == 0 {
        Ok(best)
    } else {
        let (media, qs) = piece_media_and_q(pieces[0]);
        let score = match qs {
            None => Some(1000int),
            Some(q) => parse_q(q),
        };
        match score {
            None => Err(NegotiationFailure::InvalidScore),
            Some(sc) => {
                if sc <= best_score {
                    neg_fold_rdf(pieces.drop_first(), dflt, best, best_score)
                } else {
                    match spec_media_parts(media) {
                        None => Err(NegotiationFailure::InvalidMediaType),
                        Some((ty, sub)) => {
                            let fmt = if ty == "*"@ && sub == "*"@ {
                                Some(dflt)
                            } else if sub == "*"@ {
                                if ty == "application"@ || ty == "text"@ {
                                    Some(dflt)
                                } else {
                                    None
                                }
                            } else {
                                spec_rdf_format_from(media)
                            };
                            match fmt {
                                Some(f) => neg_fold_rdf(pieces.drop_first(), dflt, Some(f), sc),
                                None => neg_fold_rdf(pieces.drop_first(), dflt, best, best_score),
                            }
                        },
                    }
                }
            },
        }
    }
}

/// The same fold for result formats.
pub open spec fn neg_fold_results(
    pieces: Seq<Seq<char>>,
    dflt: QueryResultsFormatKind,
    best: Option<QueryResultsFormatKind>,
    best_score: int,
) -> Result<Option<QueryResultsFormatKind>, NegotiationFailure>
    decreases pieces.len(),
{
    if pieces.len() == 0 {
        Ok(best)
    } else {
        let (media, qs) = piece_media_and_q(pieces[0]);
        let score = match qs {
            None => Some(1000int),
            Some(q) => parse_q(q),
        };
        match score {
            None => Err(NegotiationFailure::InvalidScore),
            Some(sc) => {
                if sc <= best_score {
                    neg_fold_results(pieces.drop_first(), dflt, best, best_score)
                } else {
                    match spec_media_parts(media) {
                        None => Err(NegotiationFailure::InvalidMediaType),
                        Some((ty, sub)) => {
                            let fmt = if ty == "*"@ && sub == "*"@ {
                                Some(dflt)
                            } else if sub == "*"@ {
                                if ty == "application"@ || ty == "text"@ {
                                    Some(dflt)
                                } else {
                                    None
                                }
                            } else {
                                spec_results_format_from(media)
                            };
                            match fmt {
                                Some(f) => neg_fold_results(pieces.drop_first(), dflt, Some(f), sc),
                                None => neg_fold_results(
                                    pieces.drop_first(),
                                    dflt,
                                    best,
                                    best_score,
                                ),
                            }
                        },
                    }
                }
            },
        }
    }
}

/// What negotiating a graph format over a whole header yields: the default
/// on an empty header, otherwise the fold's best, and not-acceptable when
/// nothing usable was offered.
pub open spec fn spec_negotiate_rdf(header: Seq<char>) -> Result<
    RdfFormatKind,
    NegotiationFailure,
> {
    if header.len() == 0 {
        Ok(RdfFormatKind::NQuads)
    } else {
        match neg_fold_rdf(spec_split(header, ','), RdfFormatKind::NQuads, None, 0) {
            Err(e) => Err(e),
            Ok(None) => Err(NegotiationFailure::NotAcceptable),
            Ok(Some(f)) => Ok(f),
        }
    }
}

/// What negotiating a result format over a whole header yields: CSV, the
/// endpoint's default, on an empty header; otherwise the fold's best, with
/// the format registry's JSON fallback behind wildcards.
pub open spec fn spec_negotiate_results(header: Seq<char>) -> Result<
    QueryResultsFormatKind,
    NegotiationFailure,
> {
    if header.len() == 0 {
        Ok(QueryResultsFormatKind::Csv)
    } else {
        match neg_fold_results(spec_split(header, ','), QueryResultsFormatKind::Json, None, 0) {
            Err(e) => Err(e),
            Ok(None) => Err(NegotiationFailure::NotAcceptable),
            Ok(Some(f)) => Ok(f),
        }
    }
}

/// Splits a media range from its trailing `q` parameter.
fn piece_media_and_q_exec(piece: &str) -> (r: (String, Option<String>))
    ensures
        piece_media_and_q(piece@) == (r.0@, match r.1 {
            Some(q) => Some(q@),
            None => None::<Seq<char>>,
        }),
{
    let n = piece.unicode_len();
    let k = match rfind_char_exec(piece, ';') {
        None => {
            return (piece.to_owned(), None);
        },
        Some(k) => k,
    };
    let param = piece.substring_char(k + 1, n);
    proof {
        assert(param@ =~= piece@.subrange(k + 1, piece@.len() as int));
    }
    let m = param.unicode_len();
    let eq = find_char_exec(param, '=');
    if eq >= m {
        return (piece.to_owned(), None);
    }
    let pname_raw = param.substring_char(0, eq);
    proof {
        assert(pname_raw@ =~= param@.subrange(0, eq as int));
    }
    let pname = trim_exec(pname_raw);
    if eq_ci_exec(pname.as_str(), "q") {
        let media = piece.substring_char(0, k);
        let qval_raw = param.substring_char(eq + 1, m);
        proof {
            assert(media@ =~= piece@.subrange(0, k as int));
            assert(qval_raw@ =~= param@.subrange(eq + 1, param@.len() as int));
        }
        let qval = trim_exec(qval_raw);
        (media.to_owned(), Some(qval))
    } else {
        (piece.to_owned(), None)
    }
}

/// Negotiates the graph format of a response from the request's `Accept`
/// header, exactly as [`spec_negotiate_rdf`] describes: N-Quads for an
/// empty header, the best-weighted recognized range otherwise.
pub fn rdf_content_negotiation(header: &str) -> (r: Result<RdfFormatKind, StoreError>)
    ensures
        match spec_negotiate_rdf(header@) {
            Ok(f) => r matches Ok(g) && g == f,
            Err(NegotiationFailure::NotAcceptable) => r matches Err(e) && e is NotAcceptable,
            Err(_) => r matches Err(e) && e is ParseError,
        },
{
    if header.unicode_len() == 0 {
        return Ok(RdfFormatKind::NQuads);
    }
    let pieces = split_exec(header, ',');
    let ghost all = str_views(pieces@);
    let mut best: Option<RdfFormatKind> = None;
    let mut best_score: u64 = 0;
    let mut i: usize = 0;
    proof {
        assert(all.subrange(0, all.len() as int) =~= all);
        assert(all.subrange(i as int, all.len() as int) =~= all);
    }
    while i < pieces.len()
        invariant
            0 <= i <= pieces@.len(),
            all == str_views(pieces@),
            all == spec_split(header@, ','),
            header@.len() != 0,
            neg_fold_rdf(all, RdfFormatKind::NQuads, None, 0) == neg_fold_rdf(
                all.subrange(i as int, all.len() as int),
                RdfFormatKind::NQuads,
                best,
                best_score as int,
            ),
        decreases pieces@.len() - i,
    {
        let ghost rem = all.subrange(i as int, all.len() as int);
        proof {
            assert(rem.len() > 0);
            assert(rem[0] == pieces@[i as int]@);
            assert(rem.drop_first() =~= all.subrange(i + 1, all.len() as int));
        }
        let piece = &pieces[i];
        let (media, qs) = piece_media_and_q_exec(piece.as_str());
        let score: u64 = match qs {
            None => 1000,
            Some(q) => match parse_q_exec(q.as_str()) {
                Some(v) => v,
                None => {
                    return Err(StoreError::ParseError(String::from_str(
                        "Invalid Accept media type score",
                    )));
                },
            },
        };
        if score <= best_score {
            i = i + 1;
            continue;
        }
        let parts = media_parts_exec(media.as_str());
        match parts {
            None => {
                return Err(StoreError::ParseError(String::from_str("Invalid media type")));
            },
            Some((ty, sub)) => {
                let star = String::from_str("*");
                let fmt: Option<RdfFormatKind> = if ty == star && sub == star {
                    Some(RdfFormatKind::NQuads)
                } else if sub == star {
                    if ty == String::from_str("application") || ty == String::from_str("text") {
                        Some(RdfFormatKind::NQuads)
                    } else {
                        None
                    }
                } else {
                    rdf_format_from_media_type(media.as_str())
                };
                match fmt {
                    Some(f) => {
                        best = Some(f);
                        best_score = score;
                    },
                    None => {},
                }
            },
        }
        i = i + 1;
    }
    proof {
        assert(all.subrange(pieces@.len() as int, all.len() as int) =~= Seq::<Seq<char>>::empty());
    }
    match best {
        Some(f) => Ok(f),
        None => Err(StoreError::NotAcceptable(String::from_str(
            "The accept header does not provide any accepted format like application/n-quads or text/turtle",
        ))),
    }
}

/// Negotiates the result format of a response from the request's `Accept`
/// header, exactly as [`spec_negotiate_results`] describes: CSV for an
/// empty header, the best-weighted recognized range otherwise.
pub fn query_results_content_negotiation(header: &str) -> (r: Result<
    QueryResultsFormatKind,
    StoreError,
>)
    ensures
        match spec_negotiate_results(header@) {
            Ok(f) => r matches Ok(g) && g == f,
            Err(NegotiationFailure::NotAcceptable) => r matches Err(e) && e is NotAcceptable,
            Err(_) => r matches Err(e) && e is ParseError,
        },
{
    if header.unicode_len() == 0 {
        return Ok(QueryResultsFormatKind::Csv);
    }
    let pieces = split_exec(header, ',');
    let ghost all = str_views(pieces@);
    let mut best: Option<QueryResultsFormatKind> = None;
    let mut best_score: u64 = 0;
    let mut i: usize = 0;
    proof {
        assert(all.subrange(i as int, all.len() as int) =~= all);
    }
    while i < pieces.len()
        invariant
            0 <= i <= pieces@.len(),
            all == str_views(pieces@),
            all == spec_split(header@, ','),
            header@.len() != 0,
            neg_fold_results(all, QueryResultsFormatKind::Json, None, 0) == neg_fold_results(
                all.subrange(i as int, all.len() as int),
                QueryResultsFormatKind::Json,
                best,
                best_score as int,
            ),
        decreases pieces@.len() - i,
    {
        let ghost rem = all.subrange(i as int, all.len() as int);
        proof {
            assert(rem.len() > 0);
            assert(rem[0] == pieces@[i as int]@);
            assert(rem.drop_first() =~= all.subrange(i + 1, all.len() as int));
        }
        let piece = &pieces[i];
        let (media, qs) = piece_media_and_q_exec(piece.as_str());
        let score: u64 = match qs {
            None => 1000,
            Some(q) => match parse_q_exec(q.as_str()) {
                Some(v) => v,
                None => {
                    return Err(StoreError::ParseError(String::from_str(
                        "Invalid Accept media type score",
                    )));
                },
            },
        };
        if score <= best_score {
            i = i + 1;
            continue;
        }
        let parts = media_parts_exec(media.as_str());
        match parts {
            None => {
                return Err(StoreError::ParseError(String::from_str("Invalid media type")));
            },
            Some((ty, sub)) => {
                let star = String::from_str("*");
                let fmt: Option<QueryResultsFormatKind> = if ty == star && sub == star {
                    Some(QueryResultsFormatKind::Json)
                } else if sub == star {
                    if ty == String::from_str("application") || ty == String::from_str("text") {
                        Some(QueryResultsFormatKind::Json)
                    } else {
                        None
                    }
                } else {
                    results_format_from_media_type(media.as_str())
                };
                match fmt {
                    Some(f) => {
                        best = Some(f);
                        best_score = score;
                    },
                    None => {},
                }
            },
        }
        i = i + 1;
    }
    proof {
        assert(all.subrange(pieces@.len() as int, all.len() as int) =~= Seq::<Seq<char>>::empty());
    }
    match best {
        Some(f) => Ok(f),
        None => Err(StoreError::NotAcceptable(String::from_str(
            "The accept header does not provide any accepted format like application/sparql-results+json or text/tsv",
        ))),
    }
}

} // verus!
