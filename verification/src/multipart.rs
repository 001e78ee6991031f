//! The `multipart/form-data` wire encoder used to build the outbound mail
//! request body.
//!
//! Given an ordered sequence of parts, each a name, an optional content
//! type, and raw bytes, the encoder produces the body bytes and the
//! matching `Content-Type` header value. The boundary is generated once per
//! encoding from a random alphanumeric string; a collision between the
//! boundary and bytes inside part data is not detected or escaped — with a
//! random 16-character boundary this is accepted and documented rather than
//! handled.
//!
//! Body layout, per part and in order: the delimiter `--<boundary>` and
//! CRLF, a `Content-Disposition` header naming the part, the `Content-Type`
//! header when one was supplied, a blank line, the raw bytes, CRLF. After
//! the last part comes the closing delimiter `--<boundary>--` and CRLF.

use vstd::prelude::*;
use vstd::string::StrSliceExecFns;
use vstd::string::StringExecFns;
use vstd::utf8::encode_utf8;
use crate::utils::{all_alnum, random_alphanumeric};

verus! {

/// One part of a multipart body.
pub struct Part {
    name: String,
    content_type: Option<String>,
    data: Vec<u8>,
}

/// The mathematical value of a `Part`.
pub ghost struct PartView {
    pub name: Seq<char>,
    pub content_type: Option<Seq<char>>,
    pub data: Seq<u8>,
}

/// The view of an optional string.
pub open spec fn opt_str_view(o: Option<String>) -> Option<Seq<char>> {
    match o {
        Some(s) => Some(s@),
        None => None,
    }
}

impl View for Part {
    type V = PartView;

    closed spec fn view(&self) -> PartView {
        PartView {
            name: self.name@,
            content_type: opt_str_view(self.content_type),
            data: self.data@,
        }
    }
}

impl Part {
    /// A part holding `data` under `name`, tagged with `content_type` when
    /// one is given.
    pub fn new(name: String, content_type: Option<String>, data: Vec<u8>) -> (r: Part)
        ensures
            r@ == (PartView { name: name@, content_type: opt_str_view(content_type), data: data@ }),
    {
        Part { name, content_type, data }
    }
}

/// The boundary for a given random id: a fixed dash prefix, then the id.
pub open spec fn boundary_of(id: Seq<char>) -> Seq<char> {
    "------------------------"@ + id
}

/// The delimiter that opens each part: two dashes, then the boundary.
pub open spec fn delimiter_of(id: Seq<char>) -> Seq<char> {
    "--"@ + boundary_of(id)
}

/// The `Content-Type` header value announcing the boundary.
pub open spec fn content_type_value(id: Seq<char>) -> Seq<char> {
    "multipart/form-data; boundary="@ + boundary_of(id)
}

/// The bytes one part contributes to the body.
pub open spec fn part_bytes(id: Seq<char>, p: PartView) -> Seq<u8> {
    encode_utf8(delimiter_of(id)) + encode_utf8("\r\nContent-Disposition: form-data; name=\""@)
        + encode_utf8(p.name) + encode_utf8("\"\r\n"@) + (match p.content_type {
        Some(t) => encode_utf8("Content-Type: "@) + encode_utf8(t) + encode_utf8("\r\n"@),
        None => Seq::<u8>::empty(),
    }) + encode_utf8("\r\n"@) + p.data + encode_utf8("\r\n"@)
}

/// The bytes a sequence of parts contributes, in order.
pub open spec fn parts_bytes(id: Seq<char>, parts: Seq<PartView>) -> Seq<u8>
    decreases parts.len(),
{
    if parts.len() == 0 {
        Seq::<u8>::empty()
    } else {
        part_bytes(id, parts[0]) + parts_bytes(id, parts.skip(1))
    }
}

/// The closing delimiter line after the last part.
pub open spec fn closing_bytes(id: Seq<char>) -> Seq<u8> {
    encode_utf8(delimiter_of(id)) + encode_utf8("--\r\n"@)
}

/// The whole body for a boundary id and a sequence of parts.
pub open spec fn body_bytes(id: Seq<char>, parts: Seq<PartView>) -> Seq<u8> {
    parts_bytes(id, parts) + closing_bytes(id)
}

/// Appending one part at the end appends its bytes at the end.
proof fn lemma_parts_bytes_push(id: Seq<char>, parts: Seq<PartView>, p: PartView)
    ensures
        parts_bytes(id, parts.push(p)) == parts_bytes(id, parts) + part_bytes(id, p),
    decreases parts.len(),
{
    let s = parts.push(p);
    if parts.len() == 0 {
        assert(s.skip(1) =~= Seq::<PartView>::empty());
        assert(parts_bytes(id, s) == part_bytes(id, s[0]) + parts_bytes(id, s.skip(1)));
        assert(parts_bytes(id, s.skip(1)) == Seq::<u8>::empty());
        assert(s[0] == p);
        assert(parts_bytes(id, s) =~= parts_bytes(id, parts) + part_bytes(id, p));
    } else {
        assert(s.skip(1) =~= parts.skip(1).push(p));
        lemma_parts_bytes_push(id, parts.skip(1), p);
        assert(parts_bytes(id, s) == part_bytes(id, s[0]) + parts_bytes(id, s.skip(1)));
        assert(s[0] == parts[0]);
        assert(parts_bytes(id, s) =~= parts_bytes(id, parts) + part_bytes(id, p));
    }
}

/// UTF-8 encoding distributes over concatenation.
pub proof fn lemma_encode_utf8_concat(a: Seq<char>, b: Seq<char>)
    ensures
        encode_utf8(a + b) == encode_utf8(a) + encode_utf8(b),
    decreases a.len(),
{
    if a.len() == 0 {
        assert(a + b =~= b);
        assert(encode_utf8(a) + encode_utf8(b) =~= encode_utf8(b));
    } else {
        assert((a + b).drop_first() =~= a.drop_first() + b);
        lemma_encode_utf8_concat(a.drop_first(), b);
        assert(encode_utf8(a + b) =~= encode_utf8(a) + encode_utf8(b));
    }
}

/// Appends the bytes of `s` to `out`.
pub fn push_bytes(out: &mut Vec<u8>, s: &[u8])
    ensures
        final(out)@ == old(out)@ + s@,
{
    let mut i: usize = 0;
    while i < s.len()
        invariant
            i <= s@.len(),
            out@ == old(out)@ + s@.take(i as int),
        decreases s@.len() - i,
    {
        let b = s[i];
        out.push(b);
        proof {
            assert(s@.take(i + 1) =~= s@.take(i as int).push(s@[i as int]));
            assert(old(out)@ + s@.take(i + 1) =~= (old(out)@ + s@.take(i as int)).push(
                s@[i as int],
            ));
        }
        i = i + 1;
    }
    proof {
        assert(s@.take(s@.len() as int) =~= s@);
    }
}

/// Appends the UTF-8 bytes of `s` to `out`.
pub fn push_str_bytes(out: &mut Vec<u8>, s: &str)
    ensures
        final(out)@ == old(out)@ + encode_utf8(s@),
{
    push_bytes(out, s.as_bytes());
}

/// A multipart body under construction: the ordered parts and the random
/// boundary id chosen for this encoding.
pub struct MultiPart {
    parts: Vec<Part>,
    id: String,
}

/// The mathematical value of a `MultiPart`.
pub ghost struct MultiPartView {
    pub parts: Seq<PartView>,
    pub id: Seq<char>,
}

impl View for MultiPart {
    type V = MultiPartView;

    closed spec fn view(&self) -> MultiPartView {
        MultiPartView { parts: self.parts@.map_values(|p: Part| p@), id: self.id@ }
    }
}

impl MultiPart {
    /// An empty multipart body with a fresh random 16-character boundary id.
    pub fn new() -> (r: MultiPart)
        ensures
            r@.parts.len() == 0,
            r@.id.len() == 16,
            all_alnum(r@.id),
    {
        MultiPart { parts: Vec::new(), id: random_alphanumeric(16) }
    }

    /// Adds a part holding raw bytes.
    pub fn part(&mut self, name: &str, content_type: Option<String>, data: Vec<u8>)
        ensures
            final(self)@.id == old(self)@.id,
            final(self)@.parts == old(self)@.parts.push(
                PartView { name: name@, content_type: opt_str_view(content_type), data: data@ },
            ),
    {
        let part = Part::new(name.to_owned(), content_type, data);
        let ghost pv = part@;
        self.parts.push(part);
        proof {
            assert(self.parts@.map_values(|p: Part| p@) =~= old(self).parts@.map_values(
                |p: Part| p@,
            ).push(pv));
        }
    }

    /// Adds a part holding the UTF-8 bytes of a string.
    pub fn str_part(&mut self, name: &str, content_type: Option<String>, data: &str)
        ensures
            final(self)@.id == old(self)@.id,
            final(self)@.parts == old(self)@.parts.push(
                PartView {
                    name: name@,
                    content_type: opt_str_view(content_type),
                    data: encode_utf8(data@),
                },
            ),
    {
        let bytes = data.as_bytes_vec();
        self.part(name, content_type, bytes);
    }

    /// The `Content-Type` header value that announces this body's boundary.
    pub fn to_content_type(&mut self) -> (r: String)
        ensures
            *final(self) == *old(self),
            r@ == content_type_value(old(self)@.id),
    {
        let mut r = String::from_str("multipart/form-data; boundary=");
        r.append("------------------------");
        r.append(self.id.as_str());
        r
    }

    /// The encoded body: each part in order, then the closing delimiter.
    pub fn to_raw(&mut self) -> (r: Vec<u8>)
        ensures
            *final(self) == *old(self),
            r@ == body_bytes(old(self)@.id, old(self)@.parts),
    {
        let mut raw: Vec<u8> = Vec::new();
        let mut i: usize = 0;
        proof {
            assert(self@.parts.take(0) =~= Seq::<PartView>::empty());
            assert(raw@ =~= parts_bytes(self@.id, self@.parts.take(0)));
        }
        while i < self.parts.len()
            invariant
                i <= self.parts@.len(),
                *self == *old(self),
                raw@ == parts_bytes(self@.id, self@.parts.take(i as int)),
            decreases self.parts@.len() - i,
        {
            let ghost pv = self@.parts[i as int];
            self.append_part(&mut raw, i);
            proof {
                lemma_parts_bytes_push(self@.id, self@.parts.take(i as int), pv);
                assert(self@.parts.take(i + 1) =~= self@.parts.take(i as int).push(pv));
            }
            i = i + 1;
        }
        proof {
            assert(self@.parts.take(self.parts@.len() as int) =~= self@.parts);
        }
        self.append_delimiter(&mut raw);
        push_str_bytes(&mut raw, "--\r\n");
        proof {
            assert(raw@ =~= body_bytes(self@.id, self@.parts));
        }
        raw
    }

    /// Appends the encoding of part `i` to `raw`.
    #[verifier::rlimit(60)]
    fn append_part(&self, raw: &mut Vec<u8>, i: usize)
        requires
            i < self@.parts.len(),
        ensures
            final(raw)@ == old(raw)@ + part_bytes(self@.id, self@.parts[i as int]),
    {
        let ghost raw0 = raw@;
        let ghost pv = self@.parts[i as int];
        self.append_delimiter(raw);
        push_str_bytes(raw, "\r\nContent-Disposition: form-data; name=\"");
        push_str_bytes(raw, self.parts[i].name.as_str());
        push_str_bytes(raw, "\"\r\n");
        proof {
            assert(raw@ =~= raw0 + (encode_utf8(delimiter_of(self@.id)) + encode_utf8(
                "\r\nContent-Disposition: form-data; name=\""@,
            ) + encode_utf8(pv.name) + encode_utf8("\"\r\n"@)));
        }
        let ghost head = encode_utf8(delimiter_of(self@.id)) + encode_utf8(
            "\r\nContent-Disposition: form-data; name=\""@,
        ) + encode_utf8(pv.name) + encode_utf8("\"\r\n"@);
        match &self.parts[i].content_type {
            Some(t) => {
                push_str_bytes(raw, "Content-Type: ");
                push_str_bytes(raw, t.as_str());
                push_str_bytes(raw, "\r\n");
                proof {
                    assert(raw@ =~= raw0 + (head + (encode_utf8("Content-Type: "@) + encode_utf8(
                        t@,
                    ) + encode_utf8("\r\n"@))));
                }
            },
            None => {
                proof {
                    assert(raw@ =~= raw0 + (head + Seq::<u8>::empty()));
                }
            },
        }
        let ghost mid = head + (match pv.content_type {
            Some(t) => encode_utf8("Content-Type: "@) + encode_utf8(t) + encode_utf8("\r\n"@),
            None => Seq::<u8>::empty(),
        });
        push_str_bytes(raw, "\r\n");
        push_bytes(raw, self.parts[i].data.as_slice());
        push_str_bytes(raw, "\r\n");
        proof {
            assert(raw@ =~= raw0 + (mid + encode_utf8("\r\n"@) + pv.data + encode_utf8("\r\n"@)));
            assert(mid + encode_utf8("\r\n"@) + pv.data + encode_utf8("\r\n"@) =~= part_bytes(
                self@.id,
                pv,
            ));
        }
    }

    /// Appends `--<boundary>` to `out`.
    fn append_delimiter(&self, out: &mut Vec<u8>)
        ensures
            final(out)@ == old(out)@ + encode_utf8(delimiter_of(self@.id)),
    {
        push_str_bytes(out, "--");
        push_str_bytes(out, "------------------------");
        push_str_bytes(out, self.id.as_str());
        proof {
            lemma_encode_utf8_concat("--"@, boundary_of(self@.id));
            lemma_encode_utf8_concat("------------------------"@, self@.id);
            assert(out@ =~= old(out)@ + encode_utf8(delimiter_of(self@.id)));
        }
    }
}

} // verus!
