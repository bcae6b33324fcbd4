//! The chat-command parser.
//!
//! A command message arrives as plain text or as an HTML-formatted body. It
//! is tokenized into words, `matrix.to` links, Matrix identifiers, and
//! quote marks, and the command layer consumes the tokens through a cursor.

use crate::ids::{
    check_event_id, check_room_alias, check_room_id, check_user_id, is_event_id, is_room_alias,
    is_room_id, is_user_id,
};
use crate::store::opt_view;
use crate::strutil::{
    contains_char, find_char, find_char_spec, has_prefix, lemma_find_char_spec, str_contains_char,
    str_eq, str_has_prefix,
};
use vstd::prelude::*;

verus! {

/// One token of a command message.
#[derive(Debug, Clone, PartialEq, Eq)]
pub enum CmdPart {
    Word(String),
    Quote,
    UserId(String),
    RoomId(String),
    RoomAlias(String),
    EventId(EventRoom, String),
}

/// The room of an event link: a literal id, or an alias still to be
/// resolved by the caller.
#[derive(Debug, Clone, PartialEq, Eq)]
pub enum EventRoom {
    Id(String),
    Alias(String),
}

/// Mathematical image of a token.
#[verifier::ext_equal]
pub enum CmdPartV {
    Word(Seq<char>),
    Quote,
    UserId(Seq<char>),
    RoomId(Seq<char>),
    RoomAlias(Seq<char>),
    EventId(EventRoomV, Seq<char>),
}

/// Mathematical image of an event link's room.
#[verifier::ext_equal]
pub enum EventRoomV {
    Id(Seq<char>),
    Alias(Seq<char>),
}

impl View for EventRoom {
    type V = EventRoomV;

    open spec fn view(&self) -> EventRoomV {
        match self {
            EventRoom::Id(s) => EventRoomV::Id(s@),
            EventRoom::Alias(s) => EventRoomV::Alias(s@),
        }
    }
}

impl View for CmdPart {
    type V = CmdPartV;

    open spec fn view(&self) -> CmdPartV {
        match self {
            CmdPart::Word(s) => CmdPartV::Word(s@),
            CmdPart::Quote => CmdPartV::Quote,
            CmdPart::UserId(s) => CmdPartV::UserId(s@),
            CmdPart::RoomId(s) => CmdPartV::RoomId(s@),
            CmdPart::RoomAlias(s) => CmdPartV::RoomAlias(s@),
            CmdPart::EventId(r, e) => CmdPartV::EventId(r@, e@),
        }
    }
}

/// View of a token vector.
pub open spec fn parts_view(v: Seq<CmdPart>) -> Seq<CmdPartV> {
    v.map_values(|p: CmdPart| p@)
}

/// What percent-decoding returns: a function of the input characters alone;
/// absent when the decoded bytes are not valid UTF-8.
pub uninterp spec fn percent_decoded(s: Seq<char>) -> Option<Seq<char>>;

/// Relies on `percent_encoding::percent_decode_str` and
/// `PercentDecode::decode_utf8`: every `%` followed by two hex digits
/// becomes a byte, anything else passes through, and the result must be
/// valid UTF-8; an input without `%` decodes to itself.
#[verifier::external_body]
fn percent_decode(s: &str) -> (r: Option<String>)
    ensures
        opt_view(r) == percent_decoded(s@),
        !contains_char(s@, '%') ==> opt_view(r) == Some(s@),
{
    percent_encoding::percent_decode_str(s).decode_utf8().ok().map(|c| c.into_owned())
}

/// What HTML-entity decoding returns: a function of the input characters
/// alone.
pub uninterp spec fn entity_decoded(s: Seq<char>) -> Seq<char>;

/// Relies on `html_escape::decode_html_entities`: exact named and numeric
/// character references ending in `;` are decoded; an input without `&` is
/// unchanged.
#[verifier::external_body]
fn decode_entities(s: &str) -> (r: String)
    ensures
        r@ == entity_decoded(s@),
        !contains_char(s@, '&') ==> r@ == s@,
{
    html_escape::decode_html_entities(s).into_owned()
}

/// One top-level node of a parsed HTML fragment, reduced to what the parser
/// reads: text, or an element's name and `href` attribute.
#[derive(Debug, Clone, PartialEq, Eq)]
pub enum HtmlNode {
    Text(String),
    Element { name: String, href: Option<String> },
    Comment(String),
}

/// Mathematical image of a reduced HTML node.
#[verifier::ext_equal]
pub enum HtmlNodeV {
    Text(Seq<char>),
    Element { name: Seq<char>, href: Option<Seq<char>> },
    Comment(Seq<char>),
}

impl View for HtmlNode {
    type V = HtmlNodeV;

    open spec fn view(&self) -> HtmlNodeV {
        match self {
            HtmlNode::Text(t) => HtmlNodeV::Text(t@),
            HtmlNode::Element { name, href } => HtmlNodeV::Element {
                name: name@,
                href: opt_view(*href),
            },
            HtmlNode::Comment(c) => HtmlNodeV::Comment(c@),
        }
    }
}

impl DeepView for HtmlNode {
    type V = HtmlNodeV;

    open spec fn deep_view(&self) -> HtmlNodeV {
        self.view()
    }
}

/// What the HTML parser returns on this input: the top-level nodes of the
/// fragment, a function of the input characters alone; absent on invalid
/// markup.
pub uninterp spec fn parsed_dom(s: Seq<char>) -> Option<Seq<HtmlNodeV>>;

/// Relies on `html_parser::Dom::parse`: deterministic parsing of the
/// fragment's top-level `Text`, `Element` and `Comment` nodes; of an
/// element only its name and `href` attribute are kept.
#[verifier::external_body]
fn dom_parse(input: &str) -> (r: Option<Vec<HtmlNode>>)
    ensures
        match r {
            Some(v) => parsed_dom(input@) == Some(v.deep_view()),
            None => parsed_dom(input@) is None,
        },
{
    let dom = match html_parser::Dom::parse(input) {
        Ok(d) => d,
        Err(_) => return None,
    };
    Some(dom.children.into_iter().map(|n| match n {
        html_parser::Node::Text(t) => HtmlNode::Text(t),
        html_parser::Node::Element(e) => HtmlNode::Element {
            name: e.name,
            href: e.attributes.get("href").cloned().flatten(),
        },
        html_parser::Node::Comment(c) => HtmlNode::Comment(c),
    }).collect())
}

/// Classify a single `matrix.to` path segment by its sigil.
pub open spec fn classify_single(q: Seq<char>) -> Option<CmdPartV> {
    if q.len() > 0 && q[0] == '@' {
        if is_user_id(q) {
            Some(CmdPartV::UserId(q))
        } else {
            None
        }
    } else if q.len() > 0 && q[0] == '#' {
        if is_room_alias(q) {
            Some(CmdPartV::RoomAlias(q))
        } else {
            None
        }
    } else if q.len() > 0 && q[0] == '!' {
        if is_room_id(q) {
            Some(CmdPartV::RoomId(q))
        } else {
            None
        }
    } else {
        None
    }
}

/// Classify a room-and-event `matrix.to` path by the two sigils.
pub open spec fn classify_double(a: Seq<char>, b: Seq<char>) -> Option<CmdPartV> {
    if a.len() > 0 && b.len() > 0 && a[0] == '!' && b[0] == '$' {
        if is_room_id(a) && is_event_id(b) {
            Some(CmdPartV::EventId(EventRoomV::Id(a), b))
        } else {
            None
        }
    } else if a.len() > 0 && b.len() > 0 && a[0] == '#' && b[0] == '$' {
        if is_room_alias(a) && is_event_id(b) {
            Some(CmdPartV::EventId(EventRoomV::Alias(a), b))
        } else {
            None
        }
    } else {
        None
    }
}

/// The token a word yields as a `matrix.to` link: percent-decode, strip the
/// `matrix.to` prefix, drop the query, and classify one or two path
/// segments.
pub open spec fn parse_url_spec(w: Seq<char>) -> Option<CmdPartV> {
    match percent_decoded(w) {
        None => None,
        Some(u) => {
            let pre = "https://matrix.to/#/"@;
            if !has_prefix(u, pre) {
                None
            } else {
                let rest = u.subrange(pre.len() as int, u.len() as int);
                let q = match find_char_spec(rest, '?', 0) {
                    Some(i) => rest.subrange(0, i),
                    None => rest,
                };
                match find_char_spec(q, '/', 0) {
                    None => classify_single(q),
                    Some(i) => {
                        let a = q.subrange(0, i);
                        let b = q.subrange(i + 1, q.len() as int);
                        if contains_char(b, '/') {
                            None
                        } else {
                            classify_double(a, b)
                        }
                    },
                }
            }
        },
    }
}

/// Parse one word as a `matrix.to` link.
pub fn parse_url(url: &str) -> (r: Option<CmdPart>)
    ensures
        match r {
            Some(p) => parse_url_spec(url@) == Some(p@),
            None => parse_url_spec(url@) is None,
        },
{
    let decoded = match percent_decode(url) {
        Some(d) => d,
        None => {
            return None;
        },
    };
    let d = decoded.as_str();
    let pre = "https://matrix.to/#/";
    if !str_has_prefix(d, pre) {
        return None;
    }
    let plen = pre.unicode_len();
    let dlen = d.unicode_len();
    let rest = d.substring_char(plen, dlen);
    proof {
        lemma_find_char_spec(rest@, '?', 0);
    }
    let q: &str = match find_char(rest, '?', 0) {
        Some(i) => rest.substring_char(0, i),
        None => rest,
    };
    let qlen = q.unicode_len();
    proof {
        lemma_find_char_spec(q@, '/', 0);
    }
    match find_char(q, '/', 0) {
        None => {
            if qlen > 0 && q.get_char(0) == '@' {
                if check_user_id(q) {
                    Some(CmdPart::UserId(q.to_owned()))
                } else {
                    None
                }
            } else if qlen > 0 && q.get_char(0) == '#' {
                if check_room_alias(q) {
                    Some(CmdPart::RoomAlias(q.to_owned()))
                } else {
                    None
                }
            } else if qlen > 0 && q.get_char(0) == '!' {
                if check_room_id(q) {
                    Some(CmdPart::RoomId(q.to_owned()))
                } else {
                    None
                }
            } else {
                None
            }
        },
        Some(i) => {
            let a = q.substring_char(0, i);
            let b = q.substring_char(i + 1, qlen);
            if str_contains_char(b, '/') {
                return None;
            }
            let alen = a.unicode_len();
            let blen = b.unicode_len();
            if alen > 0 && blen > 0 && a.get_char(0) == '!' && b.get_char(0) == '$' {
                if check_room_id(a) && check_event_id(b) {
                    Some(CmdPart::EventId(EventRoom::Id(a.to_owned()), b.to_owned()))
                } else {
                    None
                }
            } else if alen > 0 && blen > 0 && a.get_char(0) == '#' && b.get_char(0) == '$' {
                if check_room_alias(a) && check_event_id(b) {
                    Some(CmdPart::EventId(EventRoom::Alias(a.to_owned()), b.to_owned()))
                } else {
                    None
                }
            } else {
                None
            }
        },
    }
}


/// The tokens of one quote-split section of an entity-decoded word, from
/// `start` on: segments between double quotes become words, each quote
/// becomes a `Quote` token, empty segments vanish.
pub open spec fn quote_parts_from(d: Seq<char>, start: int) -> Seq<CmdPartV>
    decreases d.len() - start,
{
    if !(0 <= start <= d.len()) {
        Seq::empty()
    } else {
        match find_char_spec(d, '"', start) {
            None => if start < d.len() {
                seq![CmdPartV::Word(d.subrange(start, d.len() as int))]
            } else {
                Seq::empty()
            },
            Some(i) => {
                proof {
                    lemma_find_char_spec(d, '"', start);
                }
                (if i > start {
                    seq![CmdPartV::Word(d.subrange(start, i))]
                } else {
                    Seq::empty()
                }) + seq![CmdPartV::Quote] + quote_parts_from(d, i + 1)
            },
        }
    }
}

/// The tokens one whitespace-delimited word yields: a `matrix.to` link, a
/// Matrix identifier by its sigil, or entity-decoded plain words split at
/// double quotes.
pub open spec fn word_parts(w: Seq<char>) -> Seq<CmdPartV> {
    if w.len() == 0 {
        Seq::empty()
    } else {
        match parse_url_spec(w) {
            Some(p) => seq![p],
            None => if is_user_id(w) {
                seq![CmdPartV::UserId(w)]
            } else if is_room_id(w) {
                seq![CmdPartV::RoomId(w)]
            } else if is_room_alias(w) {
                seq![CmdPartV::RoomAlias(w)]
            } else {
                quote_parts_from(entity_decoded(w), 0)
            },
        }
    }
}

/// The tokens of a plain-text body from `start` on: each space-delimited
/// word contributes its tokens.
pub open spec fn plain_parts_from(s: Seq<char>, start: int) -> Seq<CmdPartV>
    decreases s.len() - start,
{
    if !(0 <= start <= s.len()) {
        Seq::empty()
    } else {
        match find_char_spec(s, ' ', start) {
            None => word_parts(s.subrange(start, s.len() as int)),
            Some(i) => {
                proof {
                    lemma_find_char_spec(s, ' ', start);
                }
                word_parts(s.subrange(start, i)) + plain_parts_from(s, i + 1)
            },
        }
    }
}

/// The tokens of a plain-text body.
pub open spec fn parse_plain_text_spec(s: Seq<char>) -> Seq<CmdPartV> {
    plain_parts_from(s, 0)
}

/// The tokens of one word.
fn word_tokens(w: &str) -> (r: Vec<CmdPart>)
    ensures
        parts_view(r@) == word_parts(w@),
{
    let mut out: Vec<CmdPart> = Vec::new();
    proof {
        assert(parts_view(out@) =~= Seq::<CmdPartV>::empty());
    }
    if w.unicode_len() == 0 {
        return out;
    }
    match parse_url(w) {
        Some(p) => {
            out.push(p);
            proof {
                assert(parts_view(out@) =~= word_parts(w@));
            }
            out
        },
        None => {
            if check_user_id(w) {
                out.push(CmdPart::UserId(w.to_owned()));
                proof {
                    assert(parts_view(out@) =~= word_parts(w@));
                }
                out
            } else if check_room_id(w) {
                out.push(CmdPart::RoomId(w.to_owned()));
                proof {
                    assert(parts_view(out@) =~= word_parts(w@));
                }
                out
            } else if check_room_alias(w) {
                out.push(CmdPart::RoomAlias(w.to_owned()));
                proof {
                    assert(parts_view(out@) =~= word_parts(w@));
                }
                out
            } else {
                let dec = decode_entities(w);
                let d = dec.as_str();
                let len = d.unicode_len();
                let mut start: usize = 0;
                loop
                    invariant
                        start <= len,
                        len == d@.len(),
                        d@ == entity_decoded(w@),
                        parse_url_spec(w@) is None,
                        !is_user_id(w@),
                        !is_room_id(w@),
                        !is_room_alias(w@),
                        w@.len() > 0,
                        parts_view(out@) + quote_parts_from(d@, start as int) == word_parts(w@),
                    decreases len - start,
                {
                    proof {
                        lemma_find_char_spec(d@, '"', start as int);
                    }
                    match find_char(d, '"', start) {
                        Some(i) => {
                            let ghost mid = parts_view(out@);
                            if i > start {
                                out.push(CmdPart::Word(d.substring_char(start, i).to_owned()));
                            }
                            out.push(CmdPart::Quote);
                            proof {
                                if i > start {
                                    assert(parts_view(out@) =~= mid + seq![
                                        CmdPartV::Word(d@.subrange(start as int, i as int)),
                                    ] + seq![CmdPartV::Quote]);
                                } else {
                                    assert(parts_view(out@) =~= mid + seq![CmdPartV::Quote]);
                                }
                                assert(mid + quote_parts_from(d@, start as int) =~= parts_view(out@)
                                    + quote_parts_from(d@, i + 1));
                            }
                            start = i + 1;
                        },
                        None => {
                            let ghost mid = parts_view(out@);
                            if start < len {
                                out.push(CmdPart::Word(d.substring_char(start, len).to_owned()));
                                proof {
                                    assert(parts_view(out@) =~= mid + seq![
                                        CmdPartV::Word(d@.subrange(start as int, len as int)),
                                    ]);
                                }
                            }
                            proof {
                                assert(parts_view(out@) =~= mid + quote_parts_from(
                                    d@,
                                    start as int,
                                ));
                                assert(parts_view(out@) =~= word_parts(w@));
                            }
                            return out;
                        },
                    }
                }
            }
        },
    }
}

/// Tokenize a plain-text body.
pub fn parse_plain_text(input: &str) -> (r: Vec<CmdPart>)
    ensures
        parts_view(r@) == parse_plain_text_spec(input@),
{
    let mut out: Vec<CmdPart> = Vec::new();
    let len = input.unicode_len();
    let mut start: usize = 0;
    proof {
        assert(parts_view(out@) =~= Seq::<CmdPartV>::empty());
    }
    loop
        invariant
            start <= len,
            len == input@.len(),
            parts_view(out@) + plain_parts_from(input@, start as int) == parse_plain_text_spec(
                input@,
            ),
        decreases len - start,
    {
        proof {
            lemma_find_char_spec(input@, ' ', start as int);
        }
        match find_char(input, ' ', start) {
            Some(i) => {
                let ghost base = parts_view(out@);
                let mut toks = word_tokens(input.substring_char(start, i));
                let ghost tv = parts_view(toks@);
                out.append(&mut toks);
                proof {
                    assert(parts_view(out@) =~= base + tv);
                }
                start = i + 1;
            },
            None => {
                let ghost base = parts_view(out@);
                let mut toks = word_tokens(input.substring_char(start, len));
                let ghost tv = parts_view(toks@);
                out.append(&mut toks);
                proof {
                    assert(parts_view(out@) =~= base + tv);
                }
                return out;
            },
        }
    }
}

/// Why a command message could not be parsed.
#[derive(Debug, PartialEq, Eq, Structural)]
pub enum ParseError {
    /// The formatted body is not valid markup.
    InvalidHtml,
}

/// The tokens one top-level HTML node yields: text is tokenized as plain
/// text; of elements only an `a` with an `href` that is a `matrix.to` link
/// contributes.
pub open spec fn node_parts(n: HtmlNodeV) -> Seq<CmdPartV> {
    match n {
        HtmlNodeV::Text(t) => parse_plain_text_spec(t),
        HtmlNodeV::Element { name, href } => if name == "a"@ {
            match href {
                Some(h) => match parse_url_spec(h) {
                    Some(p) => seq![p],
                    None => Seq::empty(),
                },
                None => Seq::empty(),
            }
        } else {
            Seq::empty()
        },
        HtmlNodeV::Comment(_) => Seq::empty(),
    }
}

/// The tokens of a node sequence, in order.
pub open spec fn html_parts(ns: Seq<HtmlNodeV>) -> Seq<CmdPartV>
    decreases ns.len(),
{
    if ns.len() == 0 {
        Seq::empty()
    } else {
        html_parts(ns.drop_last()) + node_parts(ns.last())
    }
}

/// The tokens of an HTML-formatted body; absent on invalid markup.
pub open spec fn parse_html_spec(s: Seq<char>) -> Option<Seq<CmdPartV>> {
    match parsed_dom(s) {
        Some(ns) => Some(html_parts(ns)),
        None => None,
    }
}

/// Tokenize an HTML-formatted body.
pub fn parse_html(input: &str) -> (r: Result<Vec<CmdPart>, ParseError>)
    ensures
        match r {
            Ok(v) => parse_html_spec(input@) == Some(parts_view(v@)),
            Err(_) => parse_html_spec(input@) is None,
        },
{
    let nodes = match dom_parse(input) {
        Some(n) => n,
        None => {
            return Err(ParseError::InvalidHtml);
        },
    };
    let mut out: Vec<CmdPart> = Vec::new();
    let n = nodes.len();
    let mut i: usize = 0;
    proof {
        assert(parts_view(out@) =~= html_parts(nodes.deep_view().take(0)));
    }
    while i < n
        invariant
            i <= n,
            n == nodes@.len(),
            parts_view(out@) == html_parts(nodes.deep_view().take(i as int)),
        decreases n - i,
    {
        proof {
            assert(nodes.deep_view().take(i + 1).drop_last() =~= nodes.deep_view().take(i as int));
            assert(nodes.deep_view().take(i + 1).last() == nodes.deep_view()[i as int]);
        }
        let ghost base = parts_view(out@);
        match &nodes[i] {
            HtmlNode::Text(t) => {
                let mut toks = parse_plain_text(t.as_str());
                out.append(&mut toks);
                proof {
                    assert(parts_view(out@) =~= base + parse_plain_text_spec(t@));
                }
            },
            HtmlNode::Element { name, href } => {
                if str_eq(name.as_str(), "a") {
                    match href {
                        Some(h) => {
                            match parse_url(h.as_str()) {
                                Some(p) => {
                                    out.push(p);
                                    proof {
                                        assert(parts_view(out@) =~= base + node_parts(
                                            nodes.deep_view()[i as int],
                                        ));
                                    }
                                },
                                None => {},
                            }
                        },
                        None => {},
                    }
                }
                proof {
                    assert(parts_view(out@) =~= base + node_parts(nodes.deep_view()[i as int]));
                }
            },
            HtmlNode::Comment(_) => {},
        }
        proof {
            assert(parts_view(out@) =~= base + node_parts(nodes.deep_view()[i as int]));
        }
        i += 1;
    }
    proof {
        assert(nodes.deep_view().take(n as int) =~= nodes.deep_view());
    }
    Ok(out)
}


/// The numeric value of a digit sequence.
pub open spec fn digits_val(s: Seq<char>) -> int
    decreases s.len(),
{
    if s.len() == 0 {
        0
    } else {
        digits_val(s.drop_last()) * 10 + (s.last() as int - '0' as int)
    }
}

/// Every character is a digit.
pub open spec fn all_digit_chars(s: Seq<char>) -> bool {
    forall|i: int| 0 <= i < s.len() ==> crate::ids::is_digit(s[i])
}

proof fn lemma_digits_val_nonneg(s: Seq<char>)
    requires
        all_digit_chars(s),
    ensures
        digits_val(s) >= 0,
    decreases s.len(),
{
    if s.len() > 0 {
        assert(forall|i: int|
            0 <= i < s.drop_last().len() ==> crate::ids::is_digit(s.drop_last()[i]));
        lemma_digits_val_nonneg(s.drop_last());
    }
}

/// A digit string's value dominates the value of each of its prefixes.
proof fn lemma_digits_val_prefix(s: Seq<char>, k: int)
    requires
        all_digit_chars(s),
        0 <= k <= s.len(),
    ensures
        digits_val(s.take(k)) <= digits_val(s),
    decreases s.len(),
{
    if k < s.len() {
        assert(forall|i: int|
            0 <= i < s.drop_last().len() ==> crate::ids::is_digit(s.drop_last()[i]));
        assert(s.drop_last().take(k) =~= s.take(k));
        lemma_digits_val_prefix(s.drop_last(), k);
        lemma_digits_val_nonneg(s.drop_last());
    } else {
        assert(s.take(k) =~= s);
    }
}

/// The digits of a number word: one leading `+` sign is dropped, as the
/// standard integer parser accepts one.
pub open spec fn number_body(s: Seq<char>) -> Seq<char> {
    if s.len() > 0 && s[0] == '+' {
        s.skip(1)
    } else {
        s
    }
}

/// Parse a word as an unsigned number: the value of a nonempty all-digit
/// word (after an optional `+` sign) that fits the machine word, absent
/// otherwise.
pub fn parse_u64(s: &str) -> (r: Option<u64>)
    ensures
        ({
            let b = number_body(s@);
            match r {
                Some(v) => b.len() > 0 && all_digit_chars(b) && v as int == digits_val(b),
                None => !(b.len() > 0 && all_digit_chars(b) && digits_val(b) <= u64::MAX),
            }
        }),
{
    let ghost b = number_body(s@);
    let len = s.unicode_len();
    if len == 0 {
        return None;
    }
    let start: usize = if s.get_char(0) == '+' {
        1
    } else {
        0
    };
    proof {
        assert(b =~= s@.subrange(start as int, len as int));
    }
    if start >= len {
        return None;
    }
    let mut acc: u64 = 0;
    let mut i: usize = start;
    while i < len
        invariant
            start <= i <= len,
            len == s@.len(),
            b == number_body(s@),
            b == s@.subrange(start as int, len as int),
            forall|j: int| start <= j < i ==> crate::ids::is_digit(s@[j]),
            acc as int == digits_val(s@.subrange(start as int, i as int)),
        decreases len - i,
    {
        let c = s.get_char(i);
        if !('0' <= c && c <= '9') {
            proof {
                assert(b.len() == len - start);
                assert(b[i - start] == s@[i as int]);
                assert(!crate::ids::is_digit(b[i - start]));
                assert(!all_digit_chars(b));
            }
            return None;
        }
        let d: u64 = (c as u32 - '0' as u32) as u64;
        proof {
            assert(s@.subrange(start as int, i + 1).drop_last() =~= s@.subrange(
                start as int,
                i as int,
            ));
            assert(s@.subrange(start as int, i + 1).last() == s@[i as int]);
        }
        if acc > (u64::MAX - d) / 10 {
            proof {
                assert(digits_val(s@.subrange(start as int, i + 1)) > u64::MAX) by {
                    assert(acc as int >= (u64::MAX - d) as int / 10 + 1);
                    assert(acc as int * 10 >= ((u64::MAX - d) as int / 10 + 1) * 10) by (nonlinear_arith)
                        requires
                            acc as int >= (u64::MAX - d) as int / 10 + 1,
                    ;
                    assert(((u64::MAX - d) as int / 10) * 10 + 10 > (u64::MAX - d) as int);
                }
                if all_digit_chars(b) {
                    assert(b.take(i + 1 - start) =~= s@.subrange(start as int, i + 1));
                    lemma_digits_val_prefix(b, i + 1 - start);
                    assert(digits_val(b) >= digits_val(s@.subrange(start as int, i + 1)));
                    assert(!(digits_val(b) <= u64::MAX));
                }
            }
            return None;
        }
        proof {
            assert(acc as int * 10 + d <= ((u64::MAX - d) as int / 10) * 10 + d) by (nonlinear_arith)
                requires
                    acc as int <= (u64::MAX - d) as int / 10,
            ;
            assert(((u64::MAX - d) as int / 10) * 10 <= (u64::MAX - d) as int);
        }
        acc = acc * 10 + d;
        i += 1;
    }
    proof {
        assert(s@.subrange(start as int, len as int) =~= b);
        assert(forall|j: int| 0 <= j < b.len() ==> crate::ids::is_digit(b[j]));
    }
    Some(acc)
}

/// How a token prints: identifiers and words as themselves, a quote mark as
/// the double-quote character, an event link as its `matrix.to` URL.
pub open spec fn part_render(p: CmdPartV) -> Seq<char> {
    match p {
        CmdPartV::Word(w) => w,
        CmdPartV::Quote => "\""@,
        CmdPartV::UserId(u) => u,
        CmdPartV::RoomId(r) => r,
        CmdPartV::RoomAlias(a) => a,
        CmdPartV::EventId(room, ev) => "https://matrix.to/#/"@ + room_render(room) + "/"@ + ev,
    }
}

/// How an event link's room prints.
pub open spec fn room_render(r: EventRoomV) -> Seq<char> {
    match r {
        EventRoomV::Id(s) => s,
        EventRoomV::Alias(s) => s,
    }
}

/// The renderings of a token run, joined with single spaces.
pub open spec fn render_join(ps: Seq<CmdPartV>) -> Seq<char>
    decreases ps.len(),
{
    if ps.len() == 0 {
        Seq::empty()
    } else if ps.len() == 1 {
        part_render(ps[0])
    } else {
        render_join(ps.drop_last()) + " "@ + part_render(ps.last())
    }
}

impl EventRoom {
    /// How this room reference prints.
    pub fn render(&self) -> (r: String)
        ensures
            r@ == room_render(self@),
    {
        match self {
            EventRoom::Id(s) => s.clone(),
            EventRoom::Alias(s) => s.clone(),
        }
    }
}

impl CmdPart {
    /// How this token prints.
    pub fn render(&self) -> (r: String)
        ensures
            r@ == part_render(self@),
    {
        match self {
            CmdPart::Word(w) => w.clone(),
            CmdPart::Quote => "\"".to_owned(),
            CmdPart::UserId(u) => u.clone(),
            CmdPart::RoomId(rm) => rm.clone(),
            CmdPart::RoomAlias(a) => a.clone(),
            CmdPart::EventId(room, ev) => {
                let mut out = "https://matrix.to/#/".to_owned();
                let rr = room.render();
                out.append(rr.as_str());
                out.append("/");
                out.append(ev.as_str());
                out
            },
        }
    }
}

fn clone_part(p: &CmdPart) -> (r: CmdPart)
    ensures
        r@ == p@,
{
    match p {
        CmdPart::Word(w) => CmdPart::Word(w.clone()),
        CmdPart::Quote => CmdPart::Quote,
        CmdPart::UserId(u) => CmdPart::UserId(u.clone()),
        CmdPart::RoomId(rm) => CmdPart::RoomId(rm.clone()),
        CmdPart::RoomAlias(a) => CmdPart::RoomAlias(a.clone()),
        CmdPart::EventId(room, ev) => CmdPart::EventId(
            match room {
                EventRoom::Id(s) => EventRoom::Id(s.clone()),
                EventRoom::Alias(s) => EventRoom::Alias(s.clone()),
            },
            ev.clone(),
        ),
    }
}


/// Index of the first `Quote` token at or after `i`.
pub open spec fn find_quote_from(ps: Seq<CmdPartV>, i: int) -> Option<int>
    decreases ps.len() - i,
{
    if i < 0 || i >= ps.len() {
        None
    } else if ps[i] is Quote {
        Some(i)
    } else {
        find_quote_from(ps, i + 1)
    }
}

/// `find_quote_from` returns the least quote index at or after `i`.
pub proof fn lemma_find_quote_from(ps: Seq<CmdPartV>, i: int)
    requires
        0 <= i <= ps.len(),
    ensures
        match find_quote_from(ps, i) {
            Some(j) => i <= j < ps.len() && ps[j] is Quote && forall|l: int|
                i <= l < j ==> !(ps[l] is Quote),
            None => forall|l: int| i <= l < ps.len() ==> !(ps[l] is Quote),
        },
    decreases ps.len() - i,
{
    if i < ps.len() && !(ps[i] is Quote) {
        lemma_find_quote_from(ps, i + 1);
    }
}

/// What `pop_quoted_string` reports: the joined quoted run when the cursor
/// is on a quote mark, the rendering of the current token otherwise.
pub open spec fn quoted_result(ps: Seq<CmdPartV>, ptr: int) -> Option<Seq<char>> {
    if ptr >= ps.len() {
        None
    } else if ps[ptr] is Quote {
        match find_quote_from(ps, ptr + 1) {
            Some(j) => Some(render_join(ps.subrange(ptr + 1, j))),
            None => Some(render_join(ps.subrange(ptr + 1, ps.len() as int))),
        }
    } else {
        Some(part_render(ps[ptr]))
    }
}

/// Where the cursor stands after `pop_quoted_string`: past the closing
/// quote of a quoted run, unmoved otherwise.
pub open spec fn quoted_new_ptr(ps: Seq<CmdPartV>, ptr: int) -> int {
    if ptr >= ps.len() {
        ptr
    } else if ps[ptr] is Quote {
        match find_quote_from(ps, ptr + 1) {
            Some(j) => j + 1,
            None => ps.len() as int,
        }
    } else {
        ptr
    }
}


/// Index of the first `Quote` token at or after `from`.
fn find_quote_idx(parts: &Vec<CmdPart>, from: usize) -> (r: Option<usize>)
    requires
        from <= parts@.len(),
    ensures
        match r {
            Some(j) => from <= j < parts@.len() && Some(j as int) == find_quote_from(
                parts_view(parts@),
                from as int,
            ),
            None => find_quote_from(parts_view(parts@), from as int) is None,
        },
{
    let n = parts.len();
    let mut j: usize = from;
    while j < n
        invariant
            from <= j <= n,
            n == parts@.len(),
            find_quote_from(parts_view(parts@), from as int) == find_quote_from(
                parts_view(parts@),
                j as int,
            ),
        decreases n - j,
    {
        let hit = match &parts[j] {
            CmdPart::Quote => true,
            _ => false,
        };
        if hit {
            assert(parts_view(parts@)[j as int] is Quote);
            return Some(j);
        }
        assert(!(parts_view(parts@)[j as int] is Quote));
        j += 1;
    }
    None
}

/// A parsed command: the token list and a cursor the command layer
/// advances.
pub struct Cmd {
    parts: Vec<CmdPart>,
    pointer: usize,
}

/// Mathematical image of a command cursor.
#[verifier::ext_equal]
pub struct CmdV {
    pub parts: Seq<CmdPartV>,
    pub pointer: int,
}

impl View for Cmd {
    type V = CmdV;

    closed spec fn view(&self) -> CmdV {
        CmdV { parts: parts_view(self.parts@), pointer: self.pointer as int }
    }
}

impl Cmd {
    /// The cursor never passes the end of the token list.
    pub open spec fn inv(&self) -> bool {
        0 <= self@.pointer <= self@.parts.len()
    }

    /// Parse a message body: the HTML tokenizer when a formatted HTML body
    /// is present, the plain-text tokenizer otherwise.
    pub fn parse(body: &str, formatted_html: Option<&str>) -> (r: Result<Cmd, ParseError>)
        ensures
            match r {
                Ok(c) => c.inv() && c@.pointer == 0 && match formatted_html {
                    Some(h) => parse_html_spec(h@) == Some(c@.parts),
                    None => c@.parts == parse_plain_text_spec(body@),
                },
                Err(_) => formatted_html matches Some(h) && parse_html_spec(h@) is None,
            },
    {
        let parts = match formatted_html {
            Some(h) => match parse_html(h) {
                Ok(p) => p,
                Err(e) => {
                    return Err(e);
                },
            },
            None => parse_plain_text(body),
        };
        Ok(Cmd { parts, pointer: 0 })
    }

    /// Take the current token and advance.
    pub fn pop(&mut self) -> (r: Option<CmdPart>)
        requires
            old(self).inv(),
        ensures
            final(self).inv(),
            final(self)@.parts == old(self)@.parts,
            match r {
                Some(p) => old(self)@.pointer < old(self)@.parts.len() && p@
                    == old(self)@.parts[old(self)@.pointer] && final(self)@.pointer == old(
                    self,
                )@.pointer + 1,
                None => old(self)@.pointer == old(self)@.parts.len() && final(self)@.pointer
                    == old(self)@.pointer,
            },
    {
        if self.pointer < self.parts.len() {
            let p = clone_part(&self.parts[self.pointer]);
            self.pointer += 1;
            Some(p)
        } else {
            None
        }
    }

    /// The current token, without advancing.
    pub fn peek(&self) -> (r: Option<CmdPart>)
        requires
            self.inv(),
        ensures
            match r {
                Some(p) => self@.pointer < self@.parts.len() && p@ == self@.parts[self@.pointer],
                None => self@.pointer == self@.parts.len(),
            },
    {
        if self.pointer < self.parts.len() {
            Some(clone_part(&self.parts[self.pointer]))
        } else {
            None
        }
    }

    /// The tokens not yet consumed.
    pub fn as_slice(&self) -> (r: &[CmdPart])
        requires
            self.inv(),
        ensures
            parts_view(r@) == self@.parts.subrange(self@.pointer, self@.parts.len() as int),
    {
        let r = vstd::slice::slice_subrange(self.parts.as_slice(), self.pointer, self.parts.len());
        proof {
            assert(parts_view(r@) =~= self@.parts.subrange(
                self@.pointer,
                self@.parts.len() as int,
            ));
        }
        r
    }

    /// How many tokens are left.
    pub fn len(&self) -> (r: usize)
        requires
            self.inv(),
        ensures
            r == self@.parts.len() - self@.pointer,
    {
        self.parts.len() - self.pointer
    }

    /// Are no tokens left?
    pub fn is_empty(&self) -> (r: bool)
        requires
            self.inv(),
        ensures
            r == (self@.parts.len() == self@.pointer),
    {
        self.len() == 0
    }

    /// Take the current token when it is a word.
    pub fn pop_word(&mut self) -> (r: Option<String>)
        requires
            old(self).inv(),
        ensures
            final(self).inv(),
            final(self)@.parts == old(self)@.parts,
            match r {
                Some(w) => old(self)@.pointer < old(self)@.parts.len() && old(self)@.parts[old(
                    self,
                )@.pointer] == CmdPartV::Word(w@) && final(self)@.pointer == old(self)@.pointer
                    + 1,
                None => final(self)@.pointer == old(self)@.pointer && (old(self)@.pointer
                    >= old(self)@.parts.len() || !(old(self)@.parts[old(self)@.pointer] is Word)),
            },
    {
        if self.pointer < self.parts.len() {
            match &self.parts[self.pointer] {
                CmdPart::Word(w) => {
                    let r = w.clone();
                    self.pointer += 1;
                    Some(r)
                },
                _ => None,
            }
        } else {
            None
        }
    }

    /// Take the current token when it is a word carrying a number that fits
    /// the machine word.
    pub fn pop_number(&mut self) -> (r: Option<u64>)
        requires
            old(self).inv(),
        ensures
            final(self).inv(),
            final(self)@.parts == old(self)@.parts,
            match r {
                Some(v) => {
                    &&& old(self)@.pointer < old(self)@.parts.len()
                    &&& old(self)@.parts[old(self)@.pointer] matches CmdPartV::Word(w)
                        && number_body(w).len() > 0 && all_digit_chars(number_body(w)) && v as int
                        == digits_val(number_body(w))
                    &&& final(self)@.pointer == old(self)@.pointer + 1
                },
                None => final(self)@.pointer == old(self)@.pointer && (old(self)@.pointer >= old(
                    self,
                )@.parts.len() || match old(self)@.parts[old(self)@.pointer] {
                    CmdPartV::Word(w) => !(number_body(w).len() > 0 && all_digit_chars(
                        number_body(w),
                    ) && digits_val(number_body(w)) <= u64::MAX),
                    _ => true,
                }),
            },
    {
        if self.pointer < self.parts.len() {
            match &self.parts[self.pointer] {
                CmdPart::Word(w) => {
                    match parse_u64(w.as_str()) {
                        Some(v) => {
                            self.pointer += 1;
                            Some(v)
                        },
                        None => None,
                    }
                },
                _ => None,
            }
        } else {
            None
        }
    }

    /// Take the current token when it is a room id or an alias the caller
    /// still has to resolve.
    pub fn pop_room_id(&mut self) -> (r: Option<EventRoom>)
        requires
            old(self).inv(),
        ensures
            final(self).inv(),
            final(self)@.parts == old(self)@.parts,
            match r {
                Some(er) => {
                    &&& old(self)@.pointer < old(self)@.parts.len()
                    &&& final(self)@.pointer == old(self)@.pointer + 1
                    &&& match er@ {
                        EventRoomV::Id(id) => old(self)@.parts[old(self)@.pointer]
                            == CmdPartV::RoomId(id),
                        EventRoomV::Alias(a) => old(self)@.parts[old(self)@.pointer]
                            == CmdPartV::RoomAlias(a),
                    }
                },
                None => final(self)@.pointer == old(self)@.pointer && (old(self)@.pointer >= old(
                    self,
                )@.parts.len() || !(old(self)@.parts[old(self)@.pointer] is RoomId || old(
                    self,
                )@.parts[old(self)@.pointer] is RoomAlias)),
            },
    {
        if self.pointer < self.parts.len() {
            match &self.parts[self.pointer] {
                CmdPart::RoomId(id) => {
                    let r = EventRoom::Id(id.clone());
                    self.pointer += 1;
                    Some(r)
                },
                CmdPart::RoomAlias(a) => {
                    let r = EventRoom::Alias(a.clone());
                    self.pointer += 1;
                    Some(r)
                },
                _ => None,
            }
        } else {
            None
        }
    }

    /// Take the current token when it is a room alias.
    pub fn pop_room_alias(&mut self) -> (r: Option<String>)
        requires
            old(self).inv(),
        ensures
            final(self).inv(),
            final(self)@.parts == old(self)@.parts,
            match r {
                Some(a) => old(self)@.pointer < old(self)@.parts.len() && old(self)@.parts[old(
                    self,
                )@.pointer] == CmdPartV::RoomAlias(a@) && final(self)@.pointer == old(
                    self,
                )@.pointer + 1,
                None => final(self)@.pointer == old(self)@.pointer && (old(self)@.pointer >= old(
                    self,
                )@.parts.len() || !(old(self)@.parts[old(self)@.pointer] is RoomAlias)),
            },
    {
        if self.pointer < self.parts.len() {
            match &self.parts[self.pointer] {
                CmdPart::RoomAlias(a) => {
                    let r = a.clone();
                    self.pointer += 1;
                    Some(r)
                },
                _ => None,
            }
        } else {
            None
        }
    }

    /// Take the current token when it is a room id or alias, as its text.
    pub fn pop_room_id_or_alias(&mut self) -> (r: Option<String>)
        requires
            old(self).inv(),
        ensures
            final(self).inv(),
            final(self)@.parts == old(self)@.parts,
            match r {
                Some(t) => {
                    &&& old(self)@.pointer < old(self)@.parts.len()
                    &&& final(self)@.pointer == old(self)@.pointer + 1
                    &&& (old(self)@.parts[old(self)@.pointer] == CmdPartV::RoomId(t@) || old(
                        self,
                    )@.parts[old(self)@.pointer] == CmdPartV::RoomAlias(t@))
                },
                None => final(self)@.pointer == old(self)@.pointer && (old(self)@.pointer >= old(
                    self,
                )@.parts.len() || !(old(self)@.parts[old(self)@.pointer] is RoomId || old(
                    self,
                )@.parts[old(self)@.pointer] is RoomAlias)),
            },
    {
        if self.pointer < self.parts.len() {
            match &self.parts[self.pointer] {
                CmdPart::RoomId(id) => {
                    let r = id.clone();
                    self.pointer += 1;
                    Some(r)
                },
                CmdPart::RoomAlias(a) => {
                    let r = a.clone();
                    self.pointer += 1;
                    Some(r)
                },
                _ => None,
            }
        } else {
            None
        }
    }

    /// Take the current token when it is a user id.
    pub fn pop_user_id(&mut self) -> (r: Option<String>)
        requires
            old(self).inv(),
        ensures
            final(self).inv(),
            final(self)@.parts == old(self)@.parts,
            match r {
                Some(u) => old(self)@.pointer < old(self)@.parts.len() && old(self)@.parts[old(
                    self,
                )@.pointer] == CmdPartV::UserId(u@) && final(self)@.pointer == old(self)@.pointer
                    + 1,
                None => final(self)@.pointer == old(self)@.pointer && (old(self)@.pointer >= old(
                    self,
                )@.parts.len() || !(old(self)@.parts[old(self)@.pointer] is UserId)),
            },
    {
        if self.pointer < self.parts.len() {
            match &self.parts[self.pointer] {
                CmdPart::UserId(u) => {
                    let r = u.clone();
                    self.pointer += 1;
                    Some(r)
                },
                _ => None,
            }
        } else {
            None
        }
    }

    /// On a quote mark, consume and join the quoted run; on any other token
    /// report its rendering without advancing.
    pub fn pop_quoted_string(&mut self) -> (r: Option<String>)
        requires
            old(self).inv(),
        ensures
            final(self).inv(),
            final(self)@.parts == old(self)@.parts,
            crate::store::opt_view(r) == quoted_result(old(self)@.parts, old(self)@.pointer),
            final(self)@.pointer == quoted_new_ptr(old(self)@.parts, old(self)@.pointer),
    {
        let ghost ps = self@.parts;
        let ghost p0 = self@.pointer;
        let n = self.parts.len();
        if self.pointer >= n {
            return None;
        }
        let is_quote = match &self.parts[self.pointer] {
            CmdPart::Quote => true,
            _ => false,
        };
        if !is_quote {
            let rendered = self.parts[self.pointer].render();
            return Some(rendered);
        }
        let qstart = self.pointer + 1;
        let j: usize = match find_quote_idx(&self.parts, qstart) {
            Some(q) => q,
            None => n,
        };
        proof {
            lemma_find_quote_from(ps, p0 + 1);
        }
        let mut out = String::new();
        let mut first = true;
        let mut i: usize = qstart;
        proof {
            assert(out@ =~= render_join(ps.subrange(p0 + 1, p0 + 1)));
        }
        while i < j
            invariant
                qstart <= i <= j <= n,
                n == ps.len(),
                self@.parts == ps,
                self@.pointer == p0,
                qstart == p0 + 1,
                out@ == render_join(ps.subrange(p0 + 1, i as int)),
                first == (i == qstart),
            decreases j - i,
        {
            let ghost cur = i as int;
            if first {
                first = false;
            } else {
                out.append(" ");
            }
            let rendered = self.parts[i].render();
            out.append(rendered.as_str());
            proof {
                assert(ps.subrange(p0 + 1, cur + 1).drop_last() =~= ps.subrange(p0 + 1, cur));
                assert(ps.subrange(p0 + 1, cur + 1).last() == ps[cur]);
                if cur == p0 + 1 {
                    assert(ps.subrange(p0 + 1, cur + 1).len() == 1);
                    assert(out@ =~= render_join(ps.subrange(p0 + 1, cur + 1)));
                } else {
                    assert(out@ =~= render_join(ps.subrange(p0 + 1, cur)) + " "@ + part_render(
                        ps[cur],
                    ));
                }
            }
            i += 1;
        }
        if j < n {
            self.pointer = j + 1;
        } else {
            self.pointer = n;
        }
        Some(out)
    }

    /// The joined rendering of the remaining tokens, absent when none are
    /// left.
    pub fn pop_remaining_into_string(self) -> (r: Option<String>)
        requires
            self.inv(),
        ensures
            match r {
                Some(t) => self@.pointer < self@.parts.len() && t@ == render_join(
                    self@.parts.subrange(self@.pointer, self@.parts.len() as int),
                ),
                None => self@.pointer == self@.parts.len(),
            },
    {
        if self.pointer < self.parts.len() {
            Some(self.into_string())
        } else {
            None
        }
    }

    /// The joined rendering of the remaining tokens.
    pub fn into_string(self) -> (r: String)
        requires
            self.inv(),
        ensures
            r@ == render_join(self@.parts.subrange(self@.pointer, self@.parts.len() as int)),
    {
        let ghost ps = self@.parts;
        let ghost p0 = self@.pointer;
        let mut out = String::new();
        let mut first = true;
        let n = self.parts.len();
        let mut i: usize = self.pointer;
        proof {
            assert(out@ =~= render_join(ps.subrange(p0, p0)));
        }
        while i < n
            invariant
                p0 <= i <= n,
                n == ps.len(),
                self@.parts == ps,
                self@.pointer == p0,
                out@ == render_join(ps.subrange(p0, i as int)),
                first == (i == p0),
            decreases n - i,
        {
            let ghost cur = i as int;
            if first {
                first = false;
            } else {
                out.append(" ");
            }
            let rendered = self.parts[i].render();
            out.append(rendered.as_str());
            proof {
                assert(ps.subrange(p0, cur + 1).drop_last() =~= ps.subrange(p0, cur));
                assert(ps.subrange(p0, cur + 1).last() == ps[cur]);
                if cur == p0 {
                    assert(ps.subrange(p0, cur + 1).len() == 1);
                    assert(out@ =~= render_join(ps.subrange(p0, cur + 1)));
                } else {
                    assert(out@ =~= render_join(ps.subrange(p0, cur)) + " "@ + part_render(
                        ps[cur],
                    ));
                }
            }
            i += 1;
        }
        out
    }
}

} // verus!
