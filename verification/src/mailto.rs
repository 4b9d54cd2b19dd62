//! The mailto resolver: from a `mailto:` URI to a prefilled template.
//!
//! The URI itself is read by the `url` crate; what this module proves is
//! what becomes of the parts that it hands back.

use crate::error::{Error, ErrorView};
use crate::msg::{addresses_view, blank_from, Account, Address, AddressView, Msg, MsgView};
use crate::template::{Template, TemplateKind, TemplateView};
use crate::text::chars_of;
use vstd::prelude::*;

verus! {

/// One `key=value` pair of a URI's query, decoded.
#[derive(Debug)]
pub struct QueryPair {
    pub key: String,
    pub value: String,
}

pub ghost struct QueryPairView {
    pub key: Seq<char>,
    pub value: Seq<char>,
}

impl View for QueryPair {
    type V = QueryPairView;

    open spec fn view(&self) -> QueryPairView {
        QueryPairView { key: self.key@, value: self.value@ }
    }
}

/// The parts of a URI that the resolver reads: the path, and the pairs of
/// the query in order.
#[derive(Debug)]
pub struct UriParts {
    pub path: String,
    pub query: Vec<QueryPair>,
}

pub ghost struct UriPartsView {
    pub path: Seq<char>,
    pub query: Seq<QueryPairView>,
}

impl View for UriParts {
    type V = UriPartsView;

    open spec fn view(&self) -> UriPartsView {
        UriPartsView { path: self.path@, query: self.query@.map_values(|p: QueryPair| p@) }
    }
}

// ---------------------------------------------------------------------------
// Reading the URI
// ---------------------------------------------------------------------------

#[verifier::external_type_specification]
#[verifier::external_body]
pub struct ExUrlParseError(url::ParseError);

/// Whether `url::Url::parse` accepts the text as an absolute URL.
pub uninterp spec fn url_parses(text: Seq<char>) -> bool;

/// What `url::Url::path` returns for the URL parsed from the text: its
/// path component, still percent-encoded.
pub uninterp spec fn url_path(text: Seq<char>) -> Seq<char>;

/// What `url::Url::query_pairs` yields for the URL parsed from the text:
/// the `key=value` pairs of its query in order, percent-decoded.
pub uninterp spec fn url_query_pairs(text: Seq<char>) -> Seq<QueryPairView>;

/// Parses `text` with `url::Url::parse` and copies out the path and the
/// query pairs of the result. Nothing is claimed about which texts parse
/// or what their parts are, only that they depend on the text alone.
#[verifier::external_body]
fn read_uri(text: &str) -> (r: Result<UriParts, url::ParseError>)
    ensures
        r is Ok <==> url_parses(text@),
        r matches Ok(parts) ==> parts.path@ == url_path(text@) && parts@.query == url_query_pairs(
            text@,
        ),
{
    let parsed = url::Url::parse(text)?;
    let query = parsed.query_pairs().map(
        |(k, v)| QueryPair { key: k.into_owned(), value: v.into_owned() },
    ).collect();
    Ok(UriParts { path: parsed.path().to_string(), query })
}

/// What `percent_encoding::percent_decode_str` makes of the text, read as
/// UTF-8 with `decode_utf8_lossy`: every `%` with two hexadecimal digits
/// after it becomes the byte that they write.
pub uninterp spec fn percent_decoded(text: Seq<char>) -> Seq<char>;

/// Percent-decodes `text` with `percent_encoding::percent_decode_str` and
/// reads the bytes as UTF-8, lossily. Nothing is claimed about the result
/// but that it depends on the text alone.
#[verifier::external_body]
fn percent_decode(text: &str) -> (r: String)
    ensures
        r@ == percent_decoded(text@),
{
    percent_encoding::percent_decode_str(text).decode_utf8_lossy().into_owned()
}

// ---------------------------------------------------------------------------
// Filling the template
// ---------------------------------------------------------------------------

/// The text begins with `mailto:`, in small letters.
pub open spec fn is_mailto(text: Seq<char>) -> bool {
    text.len() >= 7 && text.take(7) == "mailto:"@
}

/// The address with the mailbox `email` and no display name.
pub open spec fn bare_address(email: Seq<char>) -> AddressView {
    AddressView { name: Seq::empty(), email }
}

/// The message after one query pair: `to`, `cc` and `bcc` add a
/// recipient, `subject` and `body` replace what was there, and any other
/// key changes nothing.
pub open spec fn apply_pair(m: MsgView, pair: QueryPairView) -> MsgView {
    if pair.key == "to"@ {
        MsgView { to: m.to.push(bare_address(pair.value)), ..m }
    } else if pair.key == "cc"@ {
        MsgView { cc: m.cc.push(bare_address(pair.value)), ..m }
    } else if pair.key == "bcc"@ {
        MsgView { bcc: m.bcc.push(bare_address(pair.value)), ..m }
    } else if pair.key == "subject"@ {
        MsgView { subject: pair.value, ..m }
    } else if pair.key == "body"@ {
        MsgView { plain: Some(pair.value), ..m }
    } else {
        m
    }
}

/// The message after the query pairs, applied in order.
pub open spec fn apply_pairs(m: MsgView, pairs: Seq<QueryPairView>) -> MsgView
    decreases pairs.len(),
{
    if pairs.len() == 0 {
        m
    } else {
        apply_pair(apply_pairs(m, pairs.drop_last()), pairs.last())
    }
}

/// The template that a mailto URI with these parts asks for: a new
/// message under `identity`, to the path where it is not empty, with the
/// query pairs applied.
pub open spec fn mailto_template(identity: AddressView, parts: UriPartsView) -> TemplateView {
    let start = MsgView {
        to: if parts.path.len() == 0 {
            Seq::empty()
        } else {
            seq![bare_address(parts.path)]
        },
        ..blank_from(identity)
    };
    TemplateView { kind: TemplateKind::New, msg: apply_pairs(start, parts.query) }
}

fn text_is(a: &String, word: &str) -> (r: bool)
    ensures
        r == (a@ == word@),
{
    *a == String::from_str(word)
}

fn bare(email: &String) -> (r: Address)
    ensures
        r@ == bare_address(email@),
{
    Address { name: String::new(), email: email.clone() }
}

/// Whether the text is a mailto URI by its first characters. The entry
/// point asks this of its first argument before any other parsing.
pub fn is_mailto_uri(text: &str) -> (r: bool)
    ensures
        r == is_mailto(text@),
{
    let chars = chars_of(text);
    let word = chars_of("mailto:");
    proof {
        reveal_strlit("mailto:");
    }
    if chars.len() < 7 {
        return false;
    }
    let mut i: usize = 0;
    while i < 7
        invariant
            i <= 7 <= chars.len(),
            chars@ == text@,
            word@ == "mailto:"@,
            word@.len() == 7,
            forall|j: int| 0 <= j < i ==> chars@[j] == word@[j],
        decreases 7 - i,
    {
        if chars[i] != word[i] {
            assert(chars@.take(7)[i as int] != word@[i as int]);
            return false;
        }
        i += 1;
    }
    assert(chars@.take(7) =~= word@);
    true
}

impl Template {
    /// The template that a mailto URI with these parts asks for.
    pub fn from_uri_parts(account: &Account, parts: &UriParts) -> (r: Template)
        ensures
            r@ == mailto_template(account.identity(), parts@),
    {
        let mut msg = Msg::blank(account.address());
        if parts.path.as_str().unicode_len() != 0 {
            let mut to: Vec<Address> = Vec::new();
            to.push(bare(&parts.path));
            assert(addresses_view(to@) =~= seq![bare_address(parts.path@)]);
            msg.to = to;
        }
        let ghost start = msg@;
        let ghost pairs = parts@.query;
        let mut i: usize = 0;
        assert(pairs.take(0) == Seq::<QueryPairView>::empty());
        while i < parts.query.len()
            invariant
                i <= parts.query.len(),
                pairs == parts@.query,
                msg@ == apply_pairs(start, pairs.take(i as int)),
            decreases parts.query.len() - i,
        {
            let pair = &parts.query[i];
            let ghost before = msg@;
            proof {
                assert(pairs.take(i + 1).drop_last() == pairs.take(i as int));
                assert(pairs.take(i + 1).last() == pair@);
            }
            if text_is(&pair.key, "to") {
                let ghost old_to = msg.to@;
                msg.to.push(bare(&pair.value));
                assert(addresses_view(msg.to@) =~= addresses_view(old_to).push(
                    bare_address(pair.value@),
                ));
            } else if text_is(&pair.key, "cc") {
                let ghost old_cc = msg.cc@;
                msg.cc.push(bare(&pair.value));
                assert(addresses_view(msg.cc@) =~= addresses_view(old_cc).push(
                    bare_address(pair.value@),
                ));
            } else if text_is(&pair.key, "bcc") {
                let ghost old_bcc = msg.bcc@;
                msg.bcc.push(bare(&pair.value));
                assert(addresses_view(msg.bcc@) =~= addresses_view(old_bcc).push(
                    bare_address(pair.value@),
                ));
            } else if text_is(&pair.key, "subject") {
                msg.subject = pair.value.clone();
            } else if text_is(&pair.key, "body") {
                msg.plain = Some(pair.value.clone());
            }
            assert(msg@ == apply_pair(before, pair@));
            i += 1;
        }
        assert(pairs.take(i as int) == pairs);
        Template { kind: TemplateKind::New, msg }
    }
}

/// The parts of a mailto URI as the resolver fills the template from
/// them: the path percent-decoded, and the query pairs, which the `url`
/// crate hands out decoded.
pub open spec fn mailto_parts(uri: Seq<char>) -> UriPartsView {
    UriPartsView { path: percent_decoded(url_path(uri)), query: url_query_pairs(uri) }
}

/// Resolves a mailto URI into a prefilled template.
///
/// The text must begin with `mailto:` and be a URL that the `url` crate
/// accepts; any other text is a parse error that carries the text. The
/// path is the first recipient; the query keys `to`, `cc`, `bcc`,
/// `subject` and `body` fill the template, and other keys are ignored.
/// All values are percent-decoded.
pub fn mailto(account: &Account, uri: &str) -> (r: Result<Template, Error>)
    ensures
        match r {
            Ok(t) => is_mailto(uri@) && url_parses(uri@) && t@ == mailto_template(
                account.identity(),
                mailto_parts(uri@),
            ),
            Err(e) => !(is_mailto(uri@) && url_parses(uri@)) && e@ == ErrorView::Parse(uri@),
        },
{
    if !is_mailto_uri(uri) {
        return Err(Error::Parse(String::from_str(uri)));
    }
    match read_uri(uri) {
        Ok(parts) => {
            let decoded = UriParts { path: percent_decode(parts.path.as_str()), query: parts.query };
            Ok(Template::from_uri_parts(account, &decoded))
        },
        Err(_) => Err(Error::Parse(String::from_str(uri))),
    }
}

} // verus!
