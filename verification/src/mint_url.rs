//! Addresses of mints.
use std::str::FromStr;
use vstd::prelude::*;

use crate::text::{debug_str, str_debug};

verus! {

/// What `cashu::MintUrl::from_str` makes of a text: the normalised address, or an error message.
pub uninterp spec fn cashu_mint_url(text: Seq<char>) -> Result<Seq<char>, Seq<char>>;

/// Whether the text is the normalised form of some address.
pub open spec fn is_mint_url(text: Seq<char>) -> bool {
    exists|source: Seq<char>| #[trigger] cashu_mint_url(source) == Ok::<_, Seq<char>>(text)
}

/// A result whose value and message are texts, taken by view.
pub open spec fn text_result(r: Result<String, String>) -> Result<Seq<char>, Seq<char>> {
    match r {
        Ok(t) => Ok(t@),
        Err(m) => Err(m@),
    }
}

/// `cashu::MintUrl::from_str`: normalises the case of protocol and host and drops trailing
/// slashes. The result is named by [`cashu_mint_url`]: it is a function of the text alone. There
/// is one message for every failure, and the empty text fails.
#[verifier::external_body]
fn mint_url_from_str(text: &str) -> (r: Result<String, String>)
    ensures
        text_result(r) == cashu_mint_url(text@),
        r matches Err(m) ==> m@ == "Invalid URL"@,
        text@.len() == 0 ==> r is Err,
{
    match cashu::MintUrl::from_str(text) {
        Ok(url) => Ok(url.to_string()),
        Err(e) => Err(e.to_string()),
    }
}

/// The normalised address of a mint. Its view is the address.
#[derive(Debug, PartialEq, Eq)]
pub struct MintUrl {
    text: String,
}

impl View for MintUrl {
    type V = Seq<char>;

    closed spec fn view(&self) -> Seq<char> {
        self.text@
    }
}

/// The addresses, in order.
pub open spec fn urls_view(urls: Seq<MintUrl>) -> Seq<Seq<char>> {
    urls.map_values(|u: MintUrl| u@)
}

/// A parsed address taken by view.
pub open spec fn url_result(r: Result<MintUrl, String>) -> Result<Seq<char>, Seq<char>> {
    match r {
        Ok(url) => Ok(url@),
        Err(m) => Err(m@),
    }
}

/// An address as it stands in diagnostics.
pub open spec fn url_debug(url: Seq<char>) -> Seq<char> {
    "MintUrl("@ + str_debug(url) + ")"@
}

/// A list of addresses as it stands in diagnostics: in brackets, separated by a comma and a space.
pub open spec fn urls_debug(urls: Seq<Seq<char>>) -> Seq<char> {
    "["@ + urls_joined(urls) + "]"@
}

/// The addresses for diagnostics, separated by a comma and a space.
pub open spec fn urls_joined(urls: Seq<Seq<char>>) -> Seq<char>
    decreases urls.len(),
{
    if urls.len() == 0 {
        Seq::empty()
    } else if urls.len() == 1 {
        url_debug(urls[0])
    } else {
        urls_joined(urls.drop_last()) + ", "@ + url_debug(urls.last())
    }
}

impl Clone for MintUrl {
    fn clone(&self) -> (r: Self)
        ensures
            r@ == self@,
    {
        proof {
            use_type_invariant(self);
        }
        MintUrl { text: self.text.clone() }
    }
}

impl MintUrl {
    /// Every address is in normalised form.
    #[verifier::type_invariant]
    spec fn normalised(self) -> bool {
        is_mint_url(self.text@)
    }

    /// Reads and normalises an address.
    pub fn from_str(text: &str) -> (r: Result<MintUrl, String>)
        ensures
            url_result(r) == cashu_mint_url(text@),
            r matches Err(m) ==> m@ == "Invalid URL"@,
            text@.len() == 0 ==> r is Err,
    {
        match mint_url_from_str(text) {
            Ok(text) => Ok(MintUrl { text }),
            Err(m) => Err(m),
        }
    }

    /// The address whose normalised form is known.
    pub(crate) fn from_normalised(text: String) -> (r: MintUrl)
        requires
            is_mint_url(text@),
        ensures
            r@ == text@,
    {
        MintUrl { text }
    }

    /// The address as text.
    pub fn as_str(&self) -> (r: &str)
        ensures
            r@ == self@,
            is_mint_url(r@),
    {
        proof {
            use_type_invariant(self);
        }
        self.text.as_str()
    }

    /// Whether two addresses are the same.
    pub fn same_as(&self, other: &MintUrl) -> (r: bool)
        ensures
            r == (self@ == other@),
    {
        self.text == other.text
    }

    /// The address for diagnostics.
    pub fn to_debug(&self) -> (r: String)
        ensures
            r@ == url_debug(self@),
    {
        "MintUrl(".to_string().concat(debug_str(self.text.as_str()).as_str()).concat(")")
    }
}

/// Whether `url` is one of `urls`.
pub(crate) fn contains_url(urls: &Vec<MintUrl>, url: &MintUrl) -> (r: bool)
    ensures
        r == urls_view(urls@).contains(url@),
{
    let mut i: usize = 0;
    while i < urls.len()
        invariant
            i <= urls@.len(),
            forall|j: int| 0 <= j < i ==> urls@[j]@ != url@,
        decreases urls@.len() - i,
    {
        if urls[i].same_as(url) {
            assert(urls_view(urls@)[i as int] == url@);
            return true;
        }
        i += 1;
    }
    assert(forall|j: int|
        0 <= j < urls@.len() ==> #[trigger] urls_view(urls@)[j] == urls@[j]@);
    false
}

/// Copies a list of addresses.
pub(crate) fn clone_urls(urls: &Vec<MintUrl>) -> (r: Vec<MintUrl>)
    ensures
        urls_view(r@) == urls_view(urls@),
{
    let mut out: Vec<MintUrl> = Vec::new();
    let mut i: usize = 0;
    while i < urls.len()
        invariant
            i == out@.len() <= urls@.len(),
            forall|j: int| 0 <= j < i ==> (#[trigger] out@[j])@ == urls@[j]@,
        decreases urls@.len() - i,
    {
        out.push(urls[i].clone());
        i += 1;
    }
    assert(urls_view(out@) =~= urls_view(urls@));
    out
}

/// The texts, in order.
pub open spec fn texts_view(texts: Seq<String>) -> Seq<Seq<char>> {
    texts.map_values(|t: String| t@)
}

/// The addresses as texts.
pub(crate) fn url_texts(urls: &Vec<MintUrl>) -> (r: Vec<String>)
    ensures
        texts_view(r@) == urls_view(urls@),
        forall|i: int| 0 <= i < r@.len() ==> is_mint_url((#[trigger] r@[i])@),
{
    let mut out: Vec<String> = Vec::new();
    let mut i: usize = 0;
    while i < urls.len()
        invariant
            i == out@.len() <= urls@.len(),
            forall|j: int|
                0 <= j < i ==> (#[trigger] out@[j])@ == urls@[j]@ && is_mint_url(out@[j]@),
        decreases urls@.len() - i,
    {
        out.push(urls[i].as_str().to_string());
        i += 1;
    }
    assert(texts_view(out@) =~= urls_view(urls@));
    out
}

/// Formats a list of addresses for diagnostics.
pub(crate) fn debug_urls(urls: &Vec<MintUrl>) -> (r: String)
    ensures
        r@ == urls_debug(urls_view(urls@)),
{
    let ghost all = urls_view(urls@);
    let mut out = String::new();
    let mut i: usize = 0;
    while i < urls.len()
        invariant
            i <= urls@.len(),
            all == urls_view(urls@),
            out@ == urls_joined(all.take(i as int)),
        decreases urls@.len() - i,
    {
        if i > 0 {
            out = out.concat(", ");
        }
        out = out.concat(urls[i].to_debug().as_str());
        assert(all.take(i + 1).drop_last() =~= all.take(i as int));
        assert(Seq::<char>::empty() + url_debug(all[0]) =~= url_debug(all[0]));
        i += 1;
    }
    assert(all.take(all.len() as int) =~= all);
    "[".to_string().concat(out.as_str()).concat("]")
}

/// Reads an address given on the command line; the message of a failure names the text.
pub fn parse_mint_url(s: &str) -> (r: Result<MintUrl, String>)
    ensures
        url_result(r) == match cashu_mint_url(s@) {
            Ok(url) => Ok::<_, Seq<char>>(url),
            Err(m) => Err("invalid mint url "@ + str_debug(s@) + ": "@ + m),
        },
        r matches Err(m) ==> m@ == "invalid mint url "@ + str_debug(s@) + ": "@ + "Invalid URL"@,
{
    match MintUrl::from_str(s) {
        Ok(url) => Ok(url),
        Err(m) => Err(
            "invalid mint url ".to_string().concat(debug_str(s).as_str()).concat(": ").concat(
                m.as_str(),
            ),
        ),
    }
}

} // verus!
