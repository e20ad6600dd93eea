//! Bounded OSC 8 link metadata that can always be serialized safely.
use vstd::prelude::*;
use crate::bytes::utf8;
use crate::text::chars_of;

verus! {

/// Unicode general category Cc: C0 controls, DEL and C1 controls.
pub open spec fn is_control(c: char) -> bool {
    c <= '\u{1f}' || ('\u{7f}' <= c && c <= '\u{9f}')
}

pub fn char_is_control(c: char) -> (r: bool)
    ensures
        r == is_control(c),
{
    c <= '\u{1f}' || ('\u{7f}' <= c && c <= '\u{9f}')
}

/// Link metadata is accepted only when it is non-empty, bounded (8192 bytes of
/// destination, 1024 bytes of identifier) and free of control characters, and
/// the identifier has no `:` or `;`.
pub open spec fn valid_link(uri: Seq<char>, id: Seq<char>) -> bool {
    &&& uri.len() > 0
    &&& utf8(uri).len() <= 8192
    &&& utf8(id).len() <= 1024
    &&& forall|i: int| 0 <= i < uri.len() ==> !is_control(#[trigger] uri[i])
    &&& forall|i: int|
        0 <= i < id.len() ==> !is_control(#[trigger] id[i]) && id[i] != ':' && id[i] != ';'
}

/// An immutable OSC 8 destination, shared by all cells painted inside the link.
#[derive(Clone, Debug, PartialEq, Eq)]
pub struct Hyperlink {
    uri: String,
    id: String,
}

impl View for Hyperlink {
    type V = (Seq<char>, Seq<char>);

    open spec fn view(&self) -> (Seq<char>, Seq<char>) {
        (self.spec_uri(), self.spec_id())
    }
}

impl Hyperlink {
    pub closed spec fn spec_uri(&self) -> Seq<char> {
        self.uri@
    }

    pub closed spec fn spec_id(&self) -> Seq<char> {
        self.id@
    }

    /// Every link value satisfies `valid_link`.
    pub closed spec fn inv(&self) -> bool {
        valid_link(self.uri@, self.id@)
    }

    pub proof fn lemma_inv(&self)
        requires
            self.inv(),
        ensures
            valid_link(self@.0, self@.1),
    {
    }

    /// Builds bounded metadata that can safely be serialized as OSC 8. Empty
    /// destinations close links and are represented by `None` instead.
    pub fn new(uri: String, id: String) -> (link: Option<Hyperlink>)
        ensures
            link is Some <==> valid_link(uri@, id@),
            link matches Some(l) ==> l@ == (uri@, id@) && l.inv(),
    {
        let ubytes = uri.as_str().as_bytes();
        let ibytes = id.as_str().as_bytes();
        if uri.as_str().is_empty() || ubytes.len() > 8192 || ibytes.len() > 1024 {
            return None;
        }
        let u = chars_of(uri.as_str());
        let d = chars_of(id.as_str());
        let mut i: usize = 0;
        while i < u.len()
            invariant
                u@ == uri@,
                i <= u@.len(),
                forall|j: int| 0 <= j < i ==> !is_control(#[trigger] u@[j]),
            decreases u@.len() - i,
        {
            if char_is_control(u[i]) {
                return None;
            }
            i = i + 1;
        }
        let mut k: usize = 0;
        while k < d.len()
            invariant
                d@ == id@,
                k <= d@.len(),
                forall|j: int|
                    0 <= j < k ==> !is_control(#[trigger] d@[j]) && d@[j] != ':' && d@[j] != ';',
            decreases d@.len() - k,
        {
            if char_is_control(d[k]) || d[k] == ':' || d[k] == ';' {
                return None;
            }
            k = k + 1;
        }
        Some(Hyperlink { uri, id })
    }

    /// The original destination, independently of the displayed label.
    pub fn uri(&self) -> (r: &str)
        ensures
            r@ == self@.0,
    {
        self.uri.as_str()
    }

    /// The identifier joining parts of a link across redraws and rows.
    pub fn id(&self) -> (r: &str)
        ensures
            r@ == self@.1,
    {
        self.id.as_str()
    }

    /// A copy of this link.
    pub fn duplicate(&self) -> (r: Hyperlink)
        ensures
            r@ == self@,
            self.inv() ==> r.inv(),
    {
        Hyperlink { uri: self.uri.clone(), id: self.id.clone() }
    }

    /// Whether two links have the same destination and identifier.
    pub fn same(&self, other: &Hyperlink) -> (r: bool)
        ensures
            r == (self@ == other@),
    {
        let a = self.uri == other.uri;
        let b = self.id == other.id;
        a && b
    }
}

} // verus!
