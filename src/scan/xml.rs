//! Finding a mark in an XML file: the text of the element at a dotted path.

use vstd::prelude::*;
use xmlparser::{ElementEnd, Token, Tokenizer};
use crate::scan::{Mark, MarkedData, NamedData, ScanError};
use crate::text::{owned, split_dots, split_on_dots, string_of};

verus! {

/// What the scanner reads of one XML token.
#[derive(Debug)]
pub enum XmlToken {
    /// An element opens; its local name.
    Start(String),
    /// An element closes, by `</name>` or `/>`.
    End,
    /// Character data, with its byte offset in the document.
    Text(String, usize),
    /// Any other token.
    Other,
    /// The tokenizer failed here; nothing follows.
    Invalid,
}

/// The tokens of an XML document, as xmlparser reads them.
pub uninterp spec fn xml_tokens(data: Seq<char>) -> Seq<XmlToken>;

/// Relies on xmlparser's `Tokenizer`: the tokens of `data` in document order, each converted
/// one for one, a text token with its byte offset; a tokenizer error becomes `Invalid`.
#[verifier::external_body]
fn tokenize(data: &str) -> (r: Vec<XmlToken>)
    ensures
        r@ == xml_tokens(data@),
{
    let mut out = Vec::new();
    for t in Tokenizer::from(data) {
        out.push(match t {
            Ok(Token::ElementStart { local, .. }) => XmlToken::Start(local.as_str().to_string()),
            Ok(Token::ElementEnd { end: ElementEnd::Open, .. }) => XmlToken::Other,
            Ok(Token::ElementEnd { .. }) => XmlToken::End,
            Ok(Token::Text { text }) => XmlToken::Text(text.as_str().to_string(), text.start()),
            Ok(_) => XmlToken::Other,
            Err(_) => XmlToken::Invalid,
        });
    }
    out
}

/// The mark that a walk of `toks` from token `i` finds, having matched the first `matched`
/// parts and standing `depth` levels inside elements off the path.
pub open spec fn scan_from(toks: Seq<XmlToken>, parts: Seq<String>, i: nat, matched: nat, depth: nat) -> Result<
    (Seq<char>, usize),
    ScanError,
>
    decreases toks.len() - i,
{
    if i >= toks.len() {
        Err(ScanError::NotFound(matched as usize))
    } else {
        match toks[i as int] {
            XmlToken::Start(local) => if depth == 0 && matched < parts.len() && local@ == parts[matched as int]@ {
                scan_from(toks, parts, i + 1, matched + 1, depth)
            } else {
                scan_from(toks, parts, i + 1, matched, depth + 1)
            },
            XmlToken::End => if depth > 0 {
                scan_from(toks, parts, i + 1, matched, (depth - 1) as nat)
            } else {
                Err(ScanError::NotFound(matched as usize))
            },
            XmlToken::Text(t, start) => if matched == parts.len() {
                Ok((t@, start))
            } else {
                scan_from(toks, parts, i + 1, matched, depth)
            },
            XmlToken::Other => scan_from(toks, parts, i + 1, matched, depth),
            XmlToken::Invalid => Err(ScanError::BadXml),
        }
    }
}

/// The mark at the dotted path `parts` in a token stream: the first text once every part
/// has been matched, each part an element directly inside the previous one.
pub open spec fn scan_tokens_spec(toks: Seq<XmlToken>, parts: Seq<String>) -> Result<(Seq<char>, usize), ScanError> {
    if parts.len() == 0 {
        Err(ScanError::NoParts)
    } else {
        scan_from(toks, parts, 0, 0, 0)
    }
}

/// Finds the mark at the path `parts` in a token stream.
pub fn scan_tokens(toks: &Vec<XmlToken>, parts: &Vec<String>) -> (r: Result<Mark, ScanError>)
    ensures
        match scan_tokens_spec(toks@, parts@) {
            Ok((v, s)) => r matches Ok(m) && m.value@ == v && m.start == s,
            Err(e) => r == Err::<Mark, ScanError>(e),
        },
{
    if parts.len() == 0 {
        return Err(ScanError::NoParts);
    }
    let n = toks.len();
    let mut i: usize = 0;
    let mut matched: usize = 0;
    let mut depth: usize = 0;
    while i < n
        invariant
            n == toks@.len(),
            i <= n,
            parts@.len() > 0,
            matched <= parts@.len(),
            depth <= i,
            scan_from(toks@, parts@, 0, 0, 0) == scan_from(toks@, parts@, i as nat, matched as nat, depth as nat),
        decreases n - i,
    {
        match &toks[i] {
            XmlToken::Start(local) => {
                if depth == 0 && matched < parts.len() && *local == parts[matched] {
                    matched = matched + 1;
                } else {
                    depth = depth + 1;
                }
            },
            XmlToken::End => {
                if depth > 0 {
                    depth = depth - 1;
                } else {
                    proof {
                        assert(toks@[i as int] is End);
                    }
                    return Err(ScanError::NotFound(matched));
                }
            },
            XmlToken::Text(t, start) => {
                if matched == parts.len() {
                    proof {
                        assert(toks@[i as int] == XmlToken::Text(*t, *start));
                    }
                    return Ok(Mark::make(t.clone(), *start));
                }
            },
            XmlToken::Other => {},
            XmlToken::Invalid => {
                proof {
                    assert(toks@[i as int] is Invalid);

                }
                return Err(ScanError::BadXml);
            },
        }
        i = i + 1;
    }
    Err(ScanError::NotFound(matched))
}

/// Looks for a version in an XML document at a path of element names.
pub struct XmlScanner {
    pub target: Vec<String>,
}

impl XmlScanner {
    /// A scanner for the dotted path `target`.
    pub fn new(target: &str) -> (r: XmlScanner)
        ensures
            r.target@.map_values(|p: String| p@) == split_dots(target@),
    {
        let pieces = split_on_dots(target);
        let mut parts: Vec<String> = Vec::new();
        let mut i: usize = 0;
        while i < pieces.len()
            invariant
                i <= pieces@.len(),
                parts@.len() == i,
                forall|j: int| 0 <= j < i ==> #[trigger] parts@[j]@ == pieces@[j]@,
            decreases pieces@.len() - i,
        {
            parts.push(string_of(&pieces[i]));
            i = i + 1;
        }
        proof {
            assert(parts@.map_values(|p: String| p@) =~= pieces@.map_values(|p: Vec<char>| p@));
        }
        XmlScanner { target: parts }
    }

    /// A scanner for a path given part by part; a part may itself hold dots.
    pub fn from_parts(target: &[&str]) -> (r: XmlScanner)
        ensures
            r.target@.len() == target@.len(),
            forall|i: int| 0 <= i < target@.len() ==> #[trigger] r.target@[i]@ == target@[i]@,
    {
        let mut parts: Vec<String> = Vec::new();
        let mut i: usize = 0;
        while i < target.len()
            invariant
                i <= target@.len(),
                parts@.len() == i,
                forall|j: int| 0 <= j < i ==> #[trigger] parts@[j]@ == target@[j]@,
            decreases target@.len() - i,
        {
            parts.push(owned(target[i]));
            i = i + 1;
        }
        XmlScanner { target: parts }
    }

    /// Finds the mark in a document.
    pub fn scan(&self, data: NamedData) -> (r: Result<MarkedData, ScanError>)
        ensures
            match scan_tokens_spec(xml_tokens(data.data@), self.target@) {
                Ok((v, s)) => r matches Ok(m) && m.mark.value@ == v && m.mark.start == s && m.data == data.data
                    && m.name == data.name,
                Err(e) => r matches Err(x) && x == e,
            },
    {
        let toks = tokenize(data.data());
        match scan_tokens(&toks, &self.target) {
            Ok(mark) => Ok(data.mark(mark)),
            Err(e) => Err(e),
        }
    }
}

} // verus!
