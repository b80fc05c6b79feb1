//! The fetched payload, headers, and resolved URL for one completed transfer.

use vstd::prelude::*;

verus! {

/// One fetched document: the URL it finally came from, the header lines the
/// transfer reported, and the body bytes. Immutable once built, except that
/// the URL may be rewritten once to record a redirect target.
pub struct Response {
    url: String,
    headers: Vec<String>,
    buf: Vec<u8>,
}

impl Response {
    /// The URL this response belongs to.
    pub closed spec fn spec_url(&self) -> Seq<char> {
        self.url@
    }

    /// The header lines, in the order the transfer reported them.
    pub closed spec fn spec_headers(&self) -> Seq<String> {
        self.headers@
    }

    /// The body bytes.
    pub closed spec fn spec_data(&self) -> Seq<u8> {
        self.buf@
    }

    /// An empty response for the given URL.
    pub fn new(url: &str) -> (r: Self)
        ensures
            r.spec_url() == url@,
            r.spec_headers() == Seq::<String>::empty(),
            r.spec_data() == Seq::<u8>::empty(),
    {
        Self { url: url.to_owned(), headers: Vec::new(), buf: Vec::new() }
    }

    /// A response assembled from a completed transfer's parts.
    pub fn from_parts(url: String, headers: Vec<String>, buf: Vec<u8>) -> (r: Self)
        ensures
            r.spec_url() == url@,
            r.spec_headers() == headers@,
            r.spec_data() == buf@,
    {
        Self { url, headers, buf }
    }

    /// Length of the body in bytes.
    pub fn len(&self) -> (n: usize)
        ensures
            n == self.spec_data().len(),
    {
        self.buf.len()
    }

    pub fn get_headers(&self) -> (h: &[String])
        ensures
            h@ == self.spec_headers(),
    {
        self.headers.as_slice()
    }

    pub fn get_url(&self) -> (u: &str)
        ensures
            u@ == self.spec_url(),
    {
        self.url.as_str()
    }

    /// Rewrite the URL; used only to record the target of a redirect.
    pub fn set_url(&mut self, url: &str)
        ensures
            final(self).spec_url() == url@,
            final(self).spec_headers() == old(self).spec_headers(),
            final(self).spec_data() == old(self).spec_data(),
    {
        self.url = url.to_owned();
    }

    pub fn data(&self) -> (d: &[u8])
        ensures
            d@ == self.spec_data(),
    {
        self.buf.as_slice()
    }

    /// Record one header line as the transfer hands it in.
    pub fn push_header(&mut self, line: String)
        ensures
            final(self).spec_headers() == old(self).spec_headers().push(line),
            final(self).spec_url() == old(self).spec_url(),
            final(self).spec_data() == old(self).spec_data(),
    {
        self.headers.push(line);
    }

    /// Append a chunk of body bytes as the transfer hands them in.
    pub fn append_data(&mut self, data: &[u8])
        ensures
            final(self).spec_data() == old(self).spec_data() + data@,
            final(self).spec_url() == old(self).spec_url(),
            final(self).spec_headers() == old(self).spec_headers(),
    {
        self.buf.extend_from_slice(data);
    }
}

} // verus!
