//! Terms in the store's native string encoding.
//!
//! The backing stores keep every RDF value as one string: a literal starts
//! with a double quote and carries its lexical form (with the usual
//! backslash escapes) plus an optional language tag or datatype suffix, a
//! blank node starts with an underscore, and anything else is an IRI.
//! [`term_to_hdt_bgp_str`] produces that encoding and
//! [`hdt_bgp_str_to_term`] parses it back;
//! [`lemma_internalize_externalize_identity`] shows the pair to be a
//! lossless round trip on well-formed terms.

use vstd::prelude::*;

use crate::errors::StoreError;

verus! {

/// The suffix of a literal: none, a language tag, or a datatype IRI.
#[verifier::ext_equal]
pub enum SuffixV {
    Plain,
    Lang(Seq<char>),
    Typed(Seq<char>),
}

/// The mathematical model of an RDF term.
#[verifier::ext_equal]
pub enum TermV {
    Iri(Seq<char>),
    Blank(Seq<char>),
    Lit(Seq<char>, SuffixV),
}

/// The suffix of a literal term: plain, language-tagged, or typed.
pub enum LiteralSuffix {
    Plain,
    Lang(String),
    Typed(String),
}

/// An RDF term as the evaluator sees it: an IRI, a blank node label (without
/// the leading `_:`), or a literal with its unescaped lexical form.
pub enum RdfTerm {
    Iri(String),
    BlankNode(String),
    Literal(String, LiteralSuffix),
}

impl View for LiteralSuffix {
    type V = SuffixV;

    open spec fn view(&self) -> SuffixV {
        match self {
            LiteralSuffix::Plain => SuffixV::Plain,
            LiteralSuffix::Lang(l) => SuffixV::Lang(l@),
            LiteralSuffix::Typed(d) => SuffixV::Typed(d@),
        }
    }
}

impl View for RdfTerm {
    type V = TermV;

    open spec fn view(&self) -> TermV {
        match self {
            RdfTerm::Iri(i) => TermV::Iri(i@),
            RdfTerm::BlankNode(b) => TermV::Blank(b@),
            RdfTerm::Literal(v, sfx) => TermV::Lit(v@, sfx@),
        }
    }
}

// ------------------------------------------------------------------
// Well-formedness
// ------------------------------------------------------------------
/// Characters admitted inside an IRI by this library's surface grammar.
pub open spec fn is_iri_char(c: char) -> bool {
    c != ' ' && c != '<' && c != '>' && c != '"' && c != '\\' && c != '\n' && c != '\r' && c != '\t'
}

/// ASCII letters.
pub open spec fn is_alpha(c: char) -> bool {
    ('a' <= c && c <= 'z') || ('A' <= c && c <= 'Z')
}

/// ASCII digits.
pub open spec fn is_digit(c: char) -> bool {
    '0' <= c && c <= '9'
}

/// A well-formed IRI: nonempty, led by a letter, holding a `:` scheme
/// separator, and free of delimiter and whitespace characters.
pub open spec fn wf_iri(s: Seq<char>) -> bool {
    &&& s.len() > 0
    &&& is_alpha(s[0])
    &&& exists|i: int| 0 <= i < s.len() && s[i] == ':'
    &&& forall|i: int| 0 <= i < s.len() ==> is_iri_char(#[trigger] s[i])
}

/// Characters admitted in a language tag.
pub open spec fn is_lang_char(c: char) -> bool {
    is_alpha(c) || is_digit(c) || c == '-'
}

/// A well-formed language tag: nonempty, of letters, digits and hyphens.
pub open spec fn wf_lang(s: Seq<char>) -> bool {
    s.len() > 0 && forall|i: int| 0 <= i < s.len() ==> is_lang_char(#[trigger] s[i])
}

/// Characters admitted in a blank node label.
pub open spec fn is_blank_char(c: char) -> bool {
    is_alpha(c) || is_digit(c) || c == '_' || c == '-'
}

/// A well-formed blank node label: nonempty, of letters, digits, underscores
/// and hyphens.
pub open spec fn wf_blank_label(s: Seq<char>) -> bool {
    s.len() > 0 && forall|i: int| 0 <= i < s.len() ==> is_blank_char(#[trigger] s[i])
}

/// A well-formed term: every component passes its own grammar. The lexical
/// form of a literal is unrestricted; escaping handles every character.
pub open spec fn wf_term(t: TermV) -> bool {
    match t {
        TermV::Iri(i) => wf_iri(i),
        TermV::Blank(b) => wf_blank_label(b),
        TermV::Lit(_, SuffixV::Plain) => true,
        TermV::Lit(_, SuffixV::Lang(l)) => wf_lang(l),
        TermV::Lit(_, SuffixV::Typed(d)) => wf_iri(d),
    }
}

// ------------------------------------------------------------------
// Serialization (internalization)
// ------------------------------------------------------------------
/// The escape sequence a single character of a lexical form serializes to.
pub open spec fn escape_char(c: char) -> Seq<char> {
    if c == '"' {
        seq!['\\', '"']
    } else if c == '\\' {
        seq!['\\', '\\']
    } else if c == '\n' {
        seq!['\\', 'n']
    } else if c == '\r' {
        seq!['\\', 'r']
    } else {
        seq![c]
    }
}

/// The escaped form of a whole lexical form.
pub open spec fn escape_seq(s: Seq<char>) -> Seq<char>
    decreases s.len(),
{
    if s.len() == 0 {
        Seq::empty()
    } else {
        escape_char(s[0]) + escape_seq(s.drop_first())
    }
}

/// The serialized form of a literal suffix.
pub open spec fn ser_suffix(sfx: SuffixV) -> Seq<char> {
    match sfx {
        SuffixV::Plain => Seq::empty(),
        SuffixV::Lang(l) => seq!['@'] + l,
        SuffixV::Typed(d) => seq!['^', '^', '<'] + d + seq!['>'],
    }
}

/// The store's native string encoding of a term.
pub open spec fn ser_term(t: TermV) -> Seq<char> {
    match t {
        TermV::Iri(i) => i,
        TermV::Blank(b) => seq!['_', ':'] + b,
        TermV::Lit(v, sfx) => seq!['"'] + escape_seq(v) + seq!['"'] + ser_suffix(sfx),
    }
}

// ------------------------------------------------------------------
// Parsing (externalization)
// ------------------------------------------------------------------
/// The character an escape code stands for, if it is a recognized code.
pub open spec fn unescape_code(d: char) -> Option<char> {
    if d == '"' {
        Some('"')
    } else if d == '\\' {
        Some('\\')
    } else if d == 'n' {
        Some('\n')
    } else if d == 'r' {
        Some('\r')
    } else if d == 't' {
        Some('\t')
    } else {
        None
    }
}

/// Scans a literal body up to its closing quote: given the text after the
/// opening quote, yields the unescaped lexical form and the remainder after
/// the closing quote, or nothing when the text is malformed.
pub open spec fn unescape(s: Seq<char>) -> Option<(Seq<char>, Seq<char>)>
    decreases s.len(),
{
    if s.len() == 0 {
        None
    } else if s[0] == '"' {
        Some((Seq::empty(), s.drop_first()))
    } else if s[0] == '\\' {
        if s.len() < 2 {
            None
        } else {
            match unescape_code(s[1]) {
                None => None,
                Some(c) => match unescape(s.subrange(2, s.len() as int)) {
                    None => None,
                    Some((v, r)) => Some((seq![c] + v, r)),
                },
            }
        }
    } else {
        match unescape(s.drop_first()) {
            None => None,
            Some((v, r)) => Some((seq![s[0]] + v, r)),
        }
    }
}

/// Parses what follows a literal's closing quote.
pub open spec fn parse_suffix(s: Seq<char>) -> Option<SuffixV> {
    if s.len() == 0 {
        Some(SuffixV::Plain)
    } else if s[0] == '@' {
        if wf_lang(s.drop_first()) {
            Some(SuffixV::Lang(s.drop_first()))
        } else {
            None
        }
    } else if s.len() >= 4 && s[0] == '^' && s[1] == '^' && s[2] == '<' && s.last() == '>' {
        if wf_iri(s.subrange(3, s.len() - 1)) {
            Some(SuffixV::Typed(s.subrange(3, s.len() - 1)))
        } else {
            None
        }
    } else {
        None
    }
}

/// Parses a native term string, keyed on its first character: a leading
/// quote yields a literal, a leading underscore a blank node, anything else
/// an IRI. Malformed input yields nothing.
pub open spec fn parse_term(s: Seq<char>) -> Option<TermV> {
    if s.len() == 0 {
        None
    } else if s[0] == '"' {
        match unescape(s.drop_first()) {
            None => None,
            Some((v, rest)) => match parse_suffix(rest) {
                None => None,
                Some(sfx) => Some(TermV::Lit(v, sfx)),
            },
        }
    } else if s[0] == '_' {
        if s.len() >= 2 && s[1] == ':' && wf_blank_label(s.subrange(2, s.len() as int)) {
            Some(TermV::Blank(s.subrange(2, s.len() as int)))
        } else {
            None
        }
    } else {
        if wf_iri(s) {
            Some(TermV::Iri(s))
        } else {
            None
        }
    }
}

// ------------------------------------------------------------------
// Laws
// ------------------------------------------------------------------
/// Escaping distributes over concatenation.
pub proof fn lemma_escape_seq_app(a: Seq<char>, b: Seq<char>)
    ensures
        escape_seq(a + b) == escape_seq(a) + escape_seq(b),
    decreases a.len(),
{
    if a.len() == 0 {
        assert(a + b =~= b);
        assert(escape_seq(a) + escape_seq(b) =~= escape_seq(b));
    } else {
        assert((a + b).drop_first() =~= a.drop_first() + b);
        lemma_escape_seq_app(a.drop_first(), b);
        assert(escape_seq(a + b) =~= escape_seq(a) + escape_seq(b));
    }
}

/// Scanning an escaped lexical form finds exactly the closing quote that was
/// written after it, and recovers the form unchanged.
pub proof fn lemma_unescape_escape(v: Seq<char>, rest: Seq<char>)
    ensures
        unescape(escape_seq(v) + seq!['"'] + rest) == Some((v, rest)),
    decreases v.len(),
{
    let s = escape_seq(v) + seq!['"'] + rest;
    if v.len() == 0 {
        assert(s =~= seq!['"'] + rest);
        assert(s[0] == '"');
        assert(s.drop_first() =~= rest);
        assert(unescape(s) == Some((Seq::<char>::empty(), rest)));
        assert(v =~= Seq::<char>::empty());
    } else {
        let c = v[0];
        let tail = escape_seq(v.drop_first()) + seq!['"'] + rest;
        lemma_unescape_escape(v.drop_first(), rest);
        assert(escape_seq(v) =~= escape_char(c) + escape_seq(v.drop_first()));
        if c == '"' || c == '\\' || c == '\n' || c == '\r' {
            let d = if c == '"' {
                '"'
            } else if c == '\\' {
                '\\'
            } else if c == '\n' {
                'n'
            } else {
                'r'
            };
            assert(escape_char(c) =~= seq!['\\', d]);
            assert(s =~= seq!['\\', d] + tail);
            assert(s[0] == '\\');
            assert(s.len() >= 2);
            assert(s[1] == d);
            assert(unescape_code(d) == Some(c));
            assert(s.subrange(2, s.len() as int) =~= tail);
            assert(seq![c] + v.drop_first() =~= v);
        } else {
            assert(escape_char(c) =~= seq![c]);
            assert(s =~= seq![c] + tail);
            assert(s[0] == c);
            assert(s.drop_first() =~= tail);
            assert(seq![c] + v.drop_first() =~= v);
        }
    }
}

/// Parsing a serialized suffix yields the suffix back.
pub proof fn lemma_parse_suffix_ser(sfx: SuffixV)
    requires
        match sfx {
            SuffixV::Plain => true,
            SuffixV::Lang(l) => wf_lang(l),
            SuffixV::Typed(d) => wf_iri(d),
        },
    ensures
        parse_suffix(ser_suffix(sfx)) == Some(sfx),
{
    match sfx {
        SuffixV::Plain => {
            assert(ser_suffix(sfx).len() == 0);
        },
        SuffixV::Lang(l) => {
            let s = seq!['@'] + l;
            assert(s[0] == '@');
            assert(s.drop_first() =~= l);
        },
        SuffixV::Typed(d) => {
            let s = seq!['^', '^', '<'] + d + seq!['>'];
            assert(s.len() == d.len() + 4);
            assert(s[0] == '^');
            assert(s[1] == '^');
            assert(s[2] == '<');
            assert(s.last() == '>');
            assert(s[0] != '@');
            assert(s.subrange(3, s.len() - 1) =~= d);
        },
    }
}

/// Law: internalizing a well-formed term and externalizing the
/// result is the identity: the native encoding loses nothing, for any IRI,
/// literal (plain, language-tagged or typed) or blank node label.
pub proof fn lemma_internalize_externalize_identity(t: TermV)
    requires
        wf_term(t),
    ensures
        parse_term(ser_term(t)) == Some(t),
{
    match t {
        TermV::Iri(i) => {
            assert(i[0] != '"' && i[0] != '_');
        },
        TermV::Blank(b) => {
            let s = seq!['_', ':'] + b;
            assert(s[0] == '_');
            assert(s[0] != '"');
            assert(s.len() >= 2 && s[1] == ':');
            assert(s.subrange(2, s.len() as int) =~= b);
        },
        TermV::Lit(v, sfx) => {
            let s = ser_term(t);
            assert(s =~= seq!['"'] + (escape_seq(v) + seq!['"'] + ser_suffix(sfx)));
            assert(s[0] == '"');
            assert(s.drop_first() =~= escape_seq(v) + seq!['"'] + ser_suffix(sfx));
            lemma_unescape_escape(v, ser_suffix(sfx));
            lemma_parse_suffix_ser(sfx);
            assert(parse_term(s) == Some(TermV::Lit(v, sfx)));
        },
    }
}

// ------------------------------------------------------------------
// Executable conversion
// ------------------------------------------------------------------
/// Whether a character may stand in an IRI, decided as [`is_iri_char`].
fn iri_char(c: char) -> (b: bool)
    ensures
        b == is_iri_char(c),
{
    c != ' ' && c != '<' && c != '>' && c != '"' && c != '\\' && c != '\n' && c != '\r' && c != '\t'
}

/// Whether a character is an ASCII letter, decided as [`is_alpha`].
fn alpha_char(c: char) -> (b: bool)
    ensures
        b == is_alpha(c),
{
    ('a' <= c && c <= 'z') || ('A' <= c && c <= 'Z')
}

/// Whether a character is an ASCII digit, decided as [`is_digit`].
fn digit_char(c: char) -> (b: bool)
    ensures
        b == is_digit(c),
{
    '0' <= c && c <= '9'
}

/// Whether a string is a well-formed IRI under this library's grammar.
pub fn check_iri(s: &str) -> (b: bool)
    ensures
        b == wf_iri(s@),
{
    let n = s.unicode_len();
    if n == 0 {
        return false;
    }
    if !alpha_char(s.get_char(0)) {
        return false;
    }
    let mut found_colon = false;
    let mut i: usize = 0;
    while i < n
        invariant
            0 <= i <= n,
            n == s@.len(),
            found_colon == exists|j: int| 0 <= j < i && s@[j] == ':',
            forall|j: int| 0 <= j < i ==> is_iri_char(#[trigger] s@[j]),
        decreases n - i,
    {
        let c = s.get_char(i);
        if !iri_char(c) {
            return false;
        }
        if c == ':' {
            found_colon = true;
        }
        i = i + 1;
    }
    found_colon
}

/// Whether a string is a well-formed language tag.
fn check_lang(s: &str) -> (b: bool)
    ensures
        b == wf_lang(s@),
{
    let n = s.unicode_len();
    if n == 0 {
        return false;
    }
    let mut i: usize = 0;
    while i < n
        invariant
            0 <= i <= n,
            n == s@.len(),
            forall|j: int| 0 <= j < i ==> is_lang_char(#[trigger] s@[j]),
        decreases n - i,
    {
        let c = s.get_char(i);
        if !(alpha_char(c) || digit_char(c) || c == '-') {
            return false;
        }
        i = i + 1;
    }
    true
}

/// Whether a string is a well-formed blank node label.
fn check_blank_label(s: &str) -> (b: bool)
    ensures
        b == wf_blank_label(s@),
{
    let n = s.unicode_len();
    if n == 0 {
        return false;
    }
    let mut i: usize = 0;
    while i < n
        invariant
            0 <= i <= n,
            n == s@.len(),
            forall|j: int| 0 <= j < i ==> is_blank_char(#[trigger] s@[j]),
        decreases n - i,
    {
        let c = s.get_char(i);
        if !(alpha_char(c) || digit_char(c) || c == '_' || c == '-') {
            return false;
        }
        i = i + 1;
    }
    true
}

/// Serializes a term into the store's native string encoding.
///
/// The result is exactly [`ser_term`] of the term's model.
pub fn term_to_hdt_bgp_str(term: &RdfTerm) -> (r: String)
    ensures
        r@ == ser_term(term@),
{
    match term {
        RdfTerm::Iri(i) => i.clone(),
        RdfTerm::BlankNode(b) => {
            let mut r = String::new();
            r.append("_:");
            r.append(b.as_str());
            proof {
                reveal_strlit("_:");
                assert(r@ =~= seq!['_', ':'] + b@);
            }
            r
        },
        RdfTerm::Literal(v, sfx) => {
            let mut r = String::new();
            r.append("\"");
            proof {
                reveal_strlit("\"");
                assert(r@ =~= seq!['"']);
            }
            let vs = v.as_str();
            let n = vs.unicode_len();
            let mut i: usize = 0;
            while i < n
                invariant
                    0 <= i <= n,
                    n == vs@.len(),
                    vs@ == v@,
                    r@ == seq!['"'] + escape_seq(v@.subrange(0, i as int)),
                decreases n - i,
            {
                let c = vs.get_char(i);
                proof {
                    assert(v@.subrange(0, i + 1 as int) =~= v@.subrange(0, i as int) + seq![c]);
                    lemma_escape_seq_app(v@.subrange(0, i as int), seq![c]);
                    assert(seq![c].drop_first() =~= Seq::<char>::empty());
                    assert(escape_seq(seq![c]) =~= escape_char(c) + escape_seq(
                        Seq::<char>::empty(),
                    ));
                    assert(escape_char(c) + Seq::<char>::empty() =~= escape_char(c));
                    assert(escape_seq(seq![c]) =~= escape_char(c));
                }
                if c == '"' {
                    r.append("\\\"");
                    proof {
                        reveal_strlit("\\\"");
                        assert(r@ =~= seq!['"'] + escape_seq(v@.subrange(0, i + 1 as int)));
                    }
                } else if c == '\\' {
                    r.append("\\\\");
                    proof {
                        reveal_strlit("\\\\");
                        assert(r@ =~= seq!['"'] + escape_seq(v@.subrange(0, i + 1 as int)));
                    }
                } else if c == '\n' {
                    r.append("\\n");
                    proof {
                        reveal_strlit("\\n");
                        assert(r@ =~= seq!['"'] + escape_seq(v@.subrange(0, i + 1 as int)));
                    }
                } else if c == '\r' {
                    r.append("\\r");
                    proof {
                        reveal_strlit("\\r");
                        assert(r@ =~= seq!['"'] + escape_seq(v@.subrange(0, i + 1 as int)));
                    }
                } else {
                    let piece = vs.substring_char(i, i + 1);
                    r.append(piece);
                    proof {
                        assert(piece@ =~= seq![c]);
                        assert(r@ =~= seq!['"'] + escape_seq(v@.subrange(0, i + 1 as int)));
                    }
                }
                i = i + 1;
            }
            proof {
                assert(v@.subrange(0, n as int) =~= v@);
            }
            r.append("\"");
            proof {
                reveal_strlit("\"");
            }
            match sfx {
                LiteralSuffix::Plain => {
                    proof {
                        assert(r@ =~= ser_term(term@));
                    }
                },
                LiteralSuffix::Lang(l) => {
                    r.append("@");
                    r.append(l.as_str());
                    proof {
                        reveal_strlit("@");
                        assert(r@ =~= ser_term(term@));
                    }
                },
                LiteralSuffix::Typed(d) => {
                    r.append("^^<");
                    r.append(d.as_str());
                    r.append(">");
                    proof {
                        reveal_strlit("^^<");
                        reveal_strlit(">");
                        assert(r@ =~= ser_term(term@));
                    }
                },
            }
            r
        },
    }
}

/// Parses the suffix that follows a literal's closing quote.
fn parse_suffix_exec(s: &str) -> (r: Option<LiteralSuffix>)
    ensures
        match r {
            Some(sfx) => parse_suffix(s@) == Some(sfx@),
            None => parse_suffix(s@) is None,
        },
{
    let n = s.unicode_len();
    if n == 0 {
        return Some(LiteralSuffix::Plain);
    }
    let c0 = s.get_char(0);
    if c0 == '@' {
        let l = s.substring_char(1, n);
        proof {
            assert(l@ =~= s@.drop_first());
        }
        if check_lang(l) {
            Some(LiteralSuffix::Lang(l.to_owned()))
        } else {
            None
        }
    } else if n >= 4 && c0 == '^' && s.get_char(1) == '^' && s.get_char(2) == '<' && s.get_char(
        n - 1,
    ) == '>' {
        let d = s.substring_char(3, n - 1);
        proof {
            assert(d@ =~= s@.subrange(3, s@.len() - 1));
        }
        if check_iri(d) {
            Some(LiteralSuffix::Typed(d.to_owned()))
        } else {
            None
        }
    } else {
        None
    }
}

/// Parses a native term string back into a term, keyed on its first
/// character as [`parse_term`] describes; malformed input is a
/// [`StoreError::ParseError`].
pub fn hdt_bgp_str_to_term(s: &str) -> (r: Result<RdfTerm, StoreError>)
    ensures
        match r {
            Ok(t) => parse_term(s@) == Some(t@),
            Err(e) => parse_term(s@) is None && e is ParseError,
        },
{
    let n = s.unicode_len();
    if n == 0 {
        return Err(StoreError::ParseError(String::from_str("empty input")));
    }
    let c0 = s.get_char(0);
    if c0 == '"' {
        hdt_literal_to_term(s)
    } else if c0 == '_' {
        if n >= 2 && s.get_char(1) == ':' {
            let label = s.substring_char(2, n);
            proof {
                assert(label@ =~= s@.subrange(2, s@.len() as int));
            }
            if check_blank_label(label) {
                Ok(RdfTerm::BlankNode(label.to_owned()))
            } else {
                Err(StoreError::ParseError(String::from_str("invalid blank node label")))
            }
        } else {
            Err(StoreError::ParseError(String::from_str("invalid blank node label")))
        }
    } else {
        if check_iri(s) {
            Ok(RdfTerm::Iri(s.to_owned()))
        } else {
            Err(StoreError::ParseError(String::from_str("invalid iri")))
        }
    }
}

/// Parses a native literal string (leading double quote) into a term.
fn hdt_literal_to_term(s: &str) -> (r: Result<RdfTerm, StoreError>)
    requires
        s@.len() > 0,
        s@[0] == '"',
    ensures
        match r {
            Ok(t) => parse_term(s@) == Some(t@),
            Err(e) => parse_term(s@) is None && e is ParseError,
        },
{
    let n = s.unicode_len();
    let ghost body = s@.drop_first();
    let mut value = String::new();
    let mut i: usize = 1;
    loop
        invariant
            1 <= i <= n,
            n == s@.len(),
            s@[0] == '"',
            body == s@.drop_first(),
            unescape(body) == (match unescape(s@.subrange(i as int, n as int)) {
                None => None::<(Seq<char>, Seq<char>)>,
                Some((v, rr)) => Some((value@ + v, rr)),
            }),
        ensures
            1 <= i < n,
            n == s@.len(),
            s@[i as int] == '"',
            unescape(body) == (match unescape(s@.subrange(i as int, n as int)) {
                None => None::<(Seq<char>, Seq<char>)>,
                Some((v, rr)) => Some((value@ + v, rr)),
            }),
        decreases n - i,
    {
        if i >= n {
            proof {
                assert(s@.subrange(i as int, n as int).len() == 0);
            }
            return Err(StoreError::ParseError(String::from_str("unterminated literal")));
        }
        let c = s.get_char(i);
        let ghost cur = s@.subrange(i as int, n as int);
        proof {
            assert(cur.len() > 0);
            assert(cur[0] == c);
            assert(cur.drop_first() =~= s@.subrange(i + 1 as int, n as int));
        }
        if c == '"' {
            break;
        }
        let ghost v0 = value@;
        if c == '\\' {
            if i + 1 >= n {
                proof {
                    assert(cur.len() < 2);
                    assert(unescape(cur) is None);
                }
                return Err(StoreError::ParseError(String::from_str("unterminated escape")));
            }
            let d = s.get_char(i + 1);
            proof {
                assert(cur[1] == d);
                assert(cur.subrange(2, cur.len() as int) =~= s@.subrange(i + 2 as int, n as int));
            }
            if d == '"' {
                value.append("\"");
                proof {
                    reveal_strlit("\"");
                }
            } else if d == '\\' {
                value.append("\\");
                proof {
                    reveal_strlit("\\");
                }
            } else if d == 'n' {
                value.append("\n");
                proof {
                    reveal_strlit("\n");
                }
            } else if d == 'r' {
                value.append("\r");
                proof {
                    reveal_strlit("\r");
                }
            } else if d == 't' {
                value.append("\t");
                proof {
                    reveal_strlit("\t");
                }
            } else {
                proof {
                    assert(unescape_code(d) is None);
                    assert(unescape(cur) is None);
                }
                return Err(StoreError::ParseError(String::from_str("unrecognized escape code")));
            }
            proof {
                let uc = unescape_code(d)->Some_0;
                assert(value@ =~= v0 + seq![uc]);
                if let Some((v, rr)) = unescape(s@.subrange(i + 2 as int, n as int)) {
                    assert(unescape(cur) == Some((seq![uc] + v, rr)));
                    assert((v0 + seq![uc]) + v =~= v0 + (seq![uc] + v));
                }
            }
            i = i + 2;
        } else {
            let piece = s.substring_char(i, i + 1);
            value.append(piece);
            proof {
                assert(piece@ =~= seq![c]);
                assert(value@ =~= v0 + seq![c]);
                if let Some((v, rr)) = unescape(s@.subrange(i + 1 as int, n as int)) {
                    assert(unescape(cur) == Some((seq![c] + v, rr)));
                    assert((v0 + seq![c]) + v =~= v0 + (seq![c] + v));
                }
            }
            i = i + 1;
        }
    }
    // The loop broke at an unescaped closing quote at position i.
    let ghost cur = s@.subrange(i as int, n as int);
    proof {
        assert(cur.len() > 0);
        assert(cur[0] == '"');
        assert(cur.drop_first() =~= s@.subrange(i + 1 as int, n as int));
        assert(unescape(cur) == Some((Seq::<char>::empty(), s@.subrange(i + 1 as int, n as int))));
        assert(value@ + Seq::<char>::empty() =~= value@);
        assert(unescape(body) == Some((value@, s@.subrange(i + 1 as int, n as int))));
    }
    let rest = s.substring_char(i + 1, n);
    proof {
        assert(rest@ =~= s@.subrange(i + 1 as int, n as int));
    }
    match parse_suffix_exec(rest) {
        Some(sfx) => Ok(RdfTerm::Literal(value, sfx)),
        None => Err(StoreError::ParseError(String::from_str("invalid literal suffix"))),
    }
}

} // verus!
