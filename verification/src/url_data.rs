//! Extra data the backend needs to resolve url values.

use vstd::prelude::*;

verus! {

/// The scheme prefix that marks a privileged (chrome) URL.
pub open spec fn chrome_prefix() -> Seq<char> {
    seq!['c', 'h', 'r', 'o', 'm', 'e', ':']
}

/// Whether a URL string begins with the chrome scheme.
pub open spec fn spec_is_chrome(url: Seq<char>) -> bool {
    url.len() >= 7 && url.subrange(0, 7) == chrome_prefix()
}

/// Extra data that the backend may need to resolve url values:
/// the base URL of the stylesheet, as text.
pub struct UrlExtraData {
    url: String,
}

impl UrlExtraData {
    /// The URL text this value carries.
    pub closed spec fn url(self) -> Seq<char> {
        self.url@
    }

    /// Wraps a base-URL string.
    pub fn new(url: String) -> (r: UrlExtraData)
        ensures
            r.url() == url@,
    {
        UrlExtraData { url }
    }

    /// Returns a string for the url.
    pub fn as_str(&self) -> (r: &str)
        ensures
            r@ == self.url(),
    {
        self.url.as_str()
    }

    /// True if this URL scheme is chrome.
    pub fn is_chrome(&self) -> (r: bool)
        ensures
            r == spec_is_chrome(self.url()),
    {
        let s = self.url.as_str();
        let n = s.unicode_len();
        if n < 7 {
            return false;
        }
        let mut i: usize = 0;
        while i < 7
            invariant
                0 <= i <= 7,
                n >= 7,
                n == s@.len(),
                s@ == self.url(),
                forall|j: int| 0 <= j < i ==> s@[j] == chrome_prefix()[j],
            decreases 7 - i,
        {
            let c = s.get_char(i);
            let expect: char = if i == 0 {
                'c'
            } else if i == 1 {
                'h'
            } else if i == 2 {
                'r'
            } else if i == 3 {
                'o'
            } else if i == 4 {
                'm'
            } else if i == 5 {
                'e'
            } else {
                ':'
            };
            if c != expect {
                assert(s@[i as int] != chrome_prefix()[i as int]);
                assert(!spec_is_chrome(self.url())) by {
                    if spec_is_chrome(self.url()) {
                        assert(self.url().subrange(0, 7)[i as int] == chrome_prefix()[i as int]);
                    }
                }
                return false;
            }
            i += 1;
        }
        assert(self.url().subrange(0, 7) =~= chrome_prefix());
        true
    }
}

} // verus!
