//! Primitive wire fields: 32-bit signed integers, 16-bit unsigned shorts,
//! length-prefixed strings, string lists and opaque byte blobs.
//!
//! For each field there is a spec-level parser over the byte sequence
//! (value decoded plus bytes consumed) and an executable reader on a
//! [`Cursor`] proved against it.

use crate::cursor::Cursor;
use crate::error::DecodeError;
use crate::wire::{be_signed, be_u16, lemma_be_signed_bounds, read_be_signed, read_be_u16};
use vstd::arithmetic::power2::lemma2_to64;
use vstd::prelude::*;

verus! {

/// What a byte sequence reads as, leniently, when taken as UTF-8 text.
pub uninterp spec fn lossy_utf8(bytes: Seq<u8>) -> Seq<char>;

/// Relies on String::from_utf8_lossy: the decoded text depends on the
/// bytes alone; invalid sequences are replaced, never rejected.
#[verifier::external_body]
pub(crate) fn utf8_lossy(bytes: &[u8]) -> (r: String)
    ensures
        r@ == lossy_utf8(bytes@),
{
    String::from_utf8_lossy(bytes).into_owned()
}

/// A 4-byte signed big-endian integer at the head of `s`: the value and
/// the bytes consumed.
pub open spec fn parse_cint(s: Seq<u8>) -> Result<(int, int), DecodeError> {
    if s.len() < 4 {
        Err(DecodeError::UnexpectedEndOfBuffer)
    } else {
        Ok((be_signed(s.take(4)), 4))
    }
}

/// A 2-byte unsigned big-endian integer at the head of `s`.
pub open spec fn parse_short(s: Seq<u8>) -> Result<(int, int), DecodeError> {
    if s.len() < 2 {
        Err(DecodeError::UnexpectedEndOfBuffer)
    } else {
        Ok((be_u16(s.take(2)), 2))
    }
}

/// A single raw byte at the head of `s`.
pub open spec fn parse_u8(s: Seq<u8>) -> Result<(u8, int), DecodeError> {
    if s.len() < 1 {
        Err(DecodeError::UnexpectedEndOfBuffer)
    } else {
        Ok((s[0], 1))
    }
}

/// Compares two byte slices for equality of contents.
pub fn bytes_eq(a: &[u8], b: &[u8]) -> (r: bool)
    ensures
        r <==> a@ == b@,
{
    if a.len() != b.len() {
        return false;
    }
    let mut i: usize = 0;
    while i < a.len()
        invariant
            i <= a@.len(),
            a@.len() == b@.len(),
            forall|j: int| 0 <= j < i ==> a@[j] == b@[j],
        decreases a@.len() - i,
    {
        if a[i] != b[i] {
            return false;
        }
        i = i + 1;
    }
    proof {
        assert(a@ =~= b@);
    }
    true
}

/// A string field at the head of `s`: 2-byte length, then that many bytes.
pub open spec fn parse_cstring(s: Seq<u8>) -> Result<(Seq<u8>, int), DecodeError> {
    match parse_short(s) {
        Ok((l, _)) => if s.len() < 2 + l {
            Err(DecodeError::UnexpectedEndOfBuffer)
        } else {
            Ok((s.subrange(2, 2 + l), 2 + l))
        },
        Err(e) => Err(e),
    }
}

/// A bytes field at the head of `s`: 4-byte signed length, `-1` meaning
/// null, any other negative length illegal, then that many raw bytes.
pub open spec fn parse_cbytes(s: Seq<u8>) -> Result<(Option<Seq<u8>>, int), DecodeError> {
    match parse_cint(s) {
        Ok((l, _)) => if l == -1 {
            Ok((None, 4))
        } else if l < 0 {
            Err(DecodeError::InvalidLength)
        } else if s.len() < 4 + l {
            Err(DecodeError::UnexpectedEndOfBuffer)
        } else {
            Ok((Some(s.subrange(4, 4 + l)), 4 + l))
        },
        Err(e) => Err(e),
    }
}

/// Exactly `n` consecutive string fields at the head of `s`.
pub open spec fn parse_cstrings(s: Seq<u8>, n: int) -> Result<(Seq<Seq<u8>>, int), DecodeError>
    decreases n,
{
    if n <= 0 {
        Ok((Seq::empty(), 0))
    } else {
        match parse_cstring(s) {
            Ok((first, used)) => match parse_cstrings(s.skip(used), n - 1) {
                Ok((rest, more)) => Ok((seq![first] + rest, used + more)),
                Err(e) => Err(e),
            },
            Err(e) => Err(e),
        }
    }
}

/// A string list field: 2-byte count, then that many string fields.
pub open spec fn parse_cstring_list(s: Seq<u8>) -> Result<(Seq<Seq<u8>>, int), DecodeError> {
    match parse_short(s) {
        Ok((n, _)) => match parse_cstrings(s.skip(2), n) {
            Ok((items, used)) => Ok((items, 2 + used)),
            Err(e) => Err(e),
        },
        Err(e) => Err(e),
    }
}

pub proof fn lemma_parse_cstrings_used(s: Seq<u8>, n: int)
    requires
        parse_cstrings(s, n) is Ok,
    ensures
        0 <= parse_cstrings(s, n)->Ok_0.1 <= s.len(),
    decreases n,
{
    if n > 0 {
        let used0 = parse_cstring(s)->Ok_0.1;
        lemma_parse_cstrings_used(s.skip(used0), n - 1);
    }
}

pub proof fn lemma_parse_cstring_list_used(s: Seq<u8>)
    requires
        parse_cstring_list(s) is Ok,
    ensures
        0 <= parse_cstring_list(s)->Ok_0.1 <= s.len(),
{
    lemma_parse_cstrings_used(s.skip(2), parse_short(s)->Ok_0.0);
}

/// Exactly `n` consecutive bytes fields at the head of `s`.
pub open spec fn parse_cbytes_seq(s: Seq<u8>, n: int) -> Result<
    (Seq<Option<Seq<u8>>>, int),
    DecodeError,
>
    decreases n,
{
    if n <= 0 {
        Ok((Seq::empty(), 0))
    } else {
        match parse_cbytes(s) {
            Ok((first, used)) => match parse_cbytes_seq(s.skip(used), n - 1) {
                Ok((rest, more)) => Ok((seq![first] + rest, used + more)),
                Err(e) => Err(e),
            },
            Err(e) => Err(e),
        }
    }
}

/// Exactly `n` consecutive (key, value) pairs of bytes fields.
pub open spec fn parse_cbytes_pairs(s: Seq<u8>, n: int) -> Result<
    (Seq<(Option<Seq<u8>>, Option<Seq<u8>>)>, int),
    DecodeError,
>
    decreases n,
{
    if n <= 0 {
        Ok((Seq::empty(), 0))
    } else {
        match parse_cbytes(s) {
            Ok((k, used_k)) => match parse_cbytes(s.skip(used_k)) {
                Ok((v, used_v)) => match parse_cbytes_pairs(s.skip(used_k + used_v), n - 1) {
                    Ok((rest, more)) => Ok((seq![(k, v)] + rest, used_k + used_v + more)),
                    Err(e) => Err(e),
                },
                Err(e) => Err(e),
            },
            Err(e) => Err(e),
        }
    }
}

/// Reads a 4-byte signed big-endian integer field.
pub fn read_int(c: &mut Cursor) -> (r: Result<i32, DecodeError>)
    requires
        old(c).wf(),
    ensures
        final(c).wf(),
        match parse_cint(old(c).remaining()) {
            Ok((v, used)) => r is Ok && r->Ok_0 as int == v && final(c).remaining() == old(
                c,
            ).remaining().skip(used),
            Err(e) => r is Err && r->Err_0 == e && *final(c) == *old(c),
        },
{
    let ghost s = c.remaining();
    let lb = match c.read_bytes(4) {
        Ok(v) => v,
        Err(e) => { return Err(e) },
    };
    let v = read_be_signed(lb.as_slice());
    proof {
        lemma_be_signed_bounds(s.take(4));
        lemma2_to64();
    }
    Ok(v as i32)
}

/// Reads a 2-byte unsigned big-endian integer field.
pub fn read_short(c: &mut Cursor) -> (r: Result<u16, DecodeError>)
    requires
        old(c).wf(),
    ensures
        final(c).wf(),
        match parse_short(old(c).remaining()) {
            Ok((v, used)) => r is Ok && r->Ok_0 as int == v && final(c).remaining() == old(
                c,
            ).remaining().skip(used),
            Err(e) => r is Err && r->Err_0 == e && *final(c) == *old(c),
        },
{
    let lb = match c.read_bytes(2) {
        Ok(v) => v,
        Err(e) => { return Err(e) },
    };
    let v = read_be_u16(lb.as_slice());
    Ok(v)
}

/// A length-prefixed string field. The raw wire bytes are kept; text is
/// produced on demand, leniently.
#[derive(Debug, Clone)]
pub struct CString {
    bytes: Vec<u8>,
}

impl View for CString {
    type V = Seq<u8>;

    closed spec fn view(&self) -> Seq<u8> {
        self.bytes@
    }
}

impl CString {
    /// Wraps already-decoded content bytes.
    pub fn new(bytes: Vec<u8>) -> (r: CString)
        ensures
            r@ == bytes@,
    {
        CString { bytes }
    }

    /// The raw content bytes, without the length prefix.
    pub fn as_bytes(&self) -> (r: &[u8])
        ensures
            r@ == self@,
    {
        self.bytes.as_slice()
    }

    /// The content taken as text, leniently: invalid UTF-8 is replaced,
    /// never rejected.
    pub fn as_plain_string(&self) -> (r: String)
        ensures
            r@ == lossy_utf8(self@),
    {
        utf8_lossy(self.bytes.as_slice())
    }

    /// Reads a string field and advances past it.
    pub fn from_cursor(c: &mut Cursor) -> (r: Result<CString, DecodeError>)
        requires
            old(c).wf(),
        ensures
            final(c).wf(),
            match parse_cstring(old(c).remaining()) {
                Ok((content, used)) => r is Ok && r->Ok_0@ == content && final(c).remaining()
                    == old(c).remaining().skip(used),
                Err(e) => r is Err && r->Err_0 == e,
            },
    {
        let ghost s = c.remaining();
        let l = match read_short(c) {
            Ok(v) => v,
            Err(e) => { return Err(e) },
        };
        let data = match c.read_bytes(l as usize) {
            Ok(v) => v,
            Err(e) => { return Err(e) },
        };
        proof {
            assert(data@ =~= s.subrange(2, 2 + l as int));
            assert(s.skip(2).skip(l as int) =~= s.skip(2 + l as int));
        }
        Ok(CString { bytes: data })
    }
}

/// An opaque byte blob field: 4-byte signed length, `-1` meaning null,
/// then that many raw bytes.
#[derive(Debug, Clone)]
pub struct CBytes {
    data: Option<Vec<u8>>,
}

impl View for CBytes {
    type V = Option<Seq<u8>>;

    closed spec fn view(&self) -> Option<Seq<u8>> {
        match self.data {
            Some(ref v) => Some(v@),
            None => None,
        }
    }
}

impl CBytes {
    /// Wraps present content bytes.
    pub fn new(data: Vec<u8>) -> (r: CBytes)
        ensures
            r@ == Some(data@),
    {
        CBytes { data: Some(data) }
    }

    /// The null (absent) blob.
    pub fn null() -> (r: CBytes)
        ensures
            r@ is None,
    {
        CBytes { data: None }
    }

    /// Whether the blob is the null marker.
    pub fn is_null(&self) -> (r: bool)
        ensures
            r == (self@ is None),
    {
        self.data.is_none()
    }

    /// The content bytes, if the blob is not null.
    pub fn bytes(&self) -> (r: Option<&Vec<u8>>)
        ensures
            match r {
                Some(v) => self@ == Some(v@),
                None => self@ is None,
            },
    {
        self.data.as_ref()
    }

    /// Reads a bytes field and advances past it.
    pub fn from_cursor(c: &mut Cursor) -> (r: Result<CBytes, DecodeError>)
        requires
            old(c).wf(),
        ensures
            final(c).wf(),
            match parse_cbytes(old(c).remaining()) {
                Ok((content, used)) => r is Ok && r->Ok_0@ == content && final(c).remaining()
                    == old(c).remaining().skip(used),
                Err(e) => r is Err && r->Err_0 == e,
            },
    {
        let ghost s = c.remaining();
        let l = match read_int(c) {
            Ok(v) => v,
            Err(e) => { return Err(e) },
        };
        if l == -1 {
            Ok(CBytes { data: None })
        } else if l < 0 {
            Err(DecodeError::InvalidLength)
        } else {
            let data = match c.read_bytes(l as usize) {
                Ok(v) => v,
                Err(e) => { return Err(e) },
            };
            proof {
                assert(data@ =~= s.subrange(4, 4 + l as int));
                assert(s.skip(4).skip(l as int) =~= s.skip(4 + l as int));
            }
            Ok(CBytes { data: Some(data) })
        }
    }
}

/// Reads exactly `n` consecutive bytes fields, in wire order.
pub fn read_cbytes_seq(c: &mut Cursor, n: usize) -> (r: Result<Vec<CBytes>, DecodeError>)
    requires
        old(c).wf(),
    ensures
        final(c).wf(),
        match parse_cbytes_seq(old(c).remaining(), n as int) {
            Ok((items, used)) => r is Ok && r->Ok_0@.map_values(|cb: CBytes| cb@) == items
                && final(c).remaining() == old(c).remaining().skip(used),
            Err(e) => r is Err && r->Err_0 == e,
        },
{
    let ghost s0 = c.remaining();
    let mut items: Vec<CBytes> = Vec::new();
    let ghost mut consumed: int = 0;
    let mut i: usize = 0;
    while i < n
        invariant
            c.wf(),
            i <= n,
            s0 == old(c).remaining(),
            0 <= consumed <= s0.len(),
            c.remaining() == s0.skip(consumed),
            parse_cbytes_seq(s0, n as int) == (match parse_cbytes_seq(
                c.remaining(),
                n as int - i,
            ) {
                Ok((rest, more)) => Ok::<(Seq<Option<Seq<u8>>>, int), DecodeError>(
                    (items@.map_values(|cb: CBytes| cb@) + rest, consumed + more),
                ),
                Err(e) => Err::<(Seq<Option<Seq<u8>>>, int), DecodeError>(e),
            }),
        decreases n as int - i,
    {
        let ghost cur = c.remaining();
        let cb = match CBytes::from_cursor(c) {
            Ok(v) => v,
            Err(e) => {
                proof {
                    assert(parse_cbytes_seq(cur, n as int - i) == Err::<
                        (Seq<Option<Seq<u8>>>, int),
                        DecodeError,
                    >(e));
                }
                return Err(e);
            },
        };
        proof {
            let used = parse_cbytes(cur)->Ok_0.1;
            let content = parse_cbytes(cur)->Ok_0.0;
            assert(parse_cbytes_seq(cur, n as int - i) == (match parse_cbytes_seq(
                cur.skip(used),
                n as int - i - 1,
            ) {
                Ok((rest, more)) => Ok::<(Seq<Option<Seq<u8>>>, int), DecodeError>(
                    (seq![content] + rest, used + more),
                ),
                Err(e) => Err::<(Seq<Option<Seq<u8>>>, int), DecodeError>(e),
            }));
            assert(s0.skip(consumed).skip(used) =~= s0.skip(consumed + used));
            assert(items@.push(cb).map_values(|x: CBytes| x@) =~= items@.map_values(
                |x: CBytes| x@,
            ).push(content));
            assert forall|rest: Seq<Option<Seq<u8>>>|
                (items@.map_values(|x: CBytes| x@).push(content) + rest) =~= (items@.map_values(
                |x: CBytes| x@,
            ) + (seq![content] + rest)) by {}
            consumed = consumed + used;
        }
        items.push(cb);
        i = i + 1;
    }
    proof {
        assert(parse_cbytes_seq(c.remaining(), 0) == Ok::<(Seq<Option<Seq<u8>>>, int), DecodeError>(
            (Seq::empty(), 0),
        ));
        assert(items@.map_values(|cb: CBytes| cb@) + Seq::<Option<Seq<u8>>>::empty() =~= items@
            .map_values(|cb: CBytes| cb@));
    }
    Ok(items)
}

/// Reads exactly `n` consecutive (key, value) pairs of bytes fields, in
/// wire order.
pub fn read_cbytes_pairs(c: &mut Cursor, n: usize) -> (r: Result<
    Vec<(CBytes, CBytes)>,
    DecodeError,
>)
    requires
        old(c).wf(),
    ensures
        final(c).wf(),
        match parse_cbytes_pairs(old(c).remaining(), n as int) {
            Ok((items, used)) => r is Ok && r->Ok_0@.map_values(
                |p: (CBytes, CBytes)| (p.0@, p.1@),
            ) == items && final(c).remaining() == old(c).remaining().skip(used),
            Err(e) => r is Err && r->Err_0 == e,
        },
{
    let ghost s0 = c.remaining();
    let mut items: Vec<(CBytes, CBytes)> = Vec::new();
    let ghost mut consumed: int = 0;
    let mut i: usize = 0;
    while i < n
        invariant
            c.wf(),
            i <= n,
            s0 == old(c).remaining(),
            0 <= consumed <= s0.len(),
            c.remaining() == s0.skip(consumed),
            parse_cbytes_pairs(s0, n as int) == (match parse_cbytes_pairs(
                c.remaining(),
                n as int - i,
            ) {
                Ok((rest, more)) => Ok::<(Seq<(Option<Seq<u8>>, Option<Seq<u8>>)>, int), DecodeError>(
                    (items@.map_values(|p: (CBytes, CBytes)| (p.0@, p.1@)) + rest, consumed + more),
                ),
                Err(e) => Err::<(Seq<(Option<Seq<u8>>, Option<Seq<u8>>)>, int), DecodeError>(e),
            }),
        decreases n as int - i,
    {
        let ghost cur = c.remaining();
        let key = match CBytes::from_cursor(c) {
            Ok(v) => v,
            Err(e) => {
                proof {
                    assert(parse_cbytes_pairs(cur, n as int - i) == Err::<
                        (Seq<(Option<Seq<u8>>, Option<Seq<u8>>)>, int),
                        DecodeError,
                    >(e));
                }
                return Err(e);
            },
        };
        let ghost cur_v = c.remaining();
        let val = match CBytes::from_cursor(c) {
            Ok(v) => v,
            Err(e) => {
                proof {
                    assert(parse_cbytes_pairs(cur, n as int - i) == Err::<
                        (Seq<(Option<Seq<u8>>, Option<Seq<u8>>)>, int),
                        DecodeError,
                    >(e));
                }
                return Err(e);
            },
        };
        proof {
            let used_k = parse_cbytes(cur)->Ok_0.1;
            let k = parse_cbytes(cur)->Ok_0.0;
            let used_v = parse_cbytes(cur_v)->Ok_0.1;
            let v = parse_cbytes(cur_v)->Ok_0.0;
            assert(cur_v == cur.skip(used_k));
            assert(parse_cbytes_pairs(cur, n as int - i) == (match parse_cbytes_pairs(
                cur.skip(used_k + used_v),
                n as int - i - 1,
            ) {
                Ok((rest, more)) => Ok::<(Seq<(Option<Seq<u8>>, Option<Seq<u8>>)>, int), DecodeError>(
                    (seq![(k, v)] + rest, used_k + used_v + more),
                ),
                Err(e) => Err::<(Seq<(Option<Seq<u8>>, Option<Seq<u8>>)>, int), DecodeError>(e),
            }));
            assert(cur.skip(used_k).skip(used_v) =~= cur.skip(used_k + used_v));
            assert(s0.skip(consumed).skip(used_k + used_v) =~= s0.skip(consumed + used_k + used_v));
            assert(items@.push((key, val)).map_values(|p: (CBytes, CBytes)| (p.0@, p.1@)) =~= items@
                .map_values(|p: (CBytes, CBytes)| (p.0@, p.1@)).push((k, v)));
            assert forall|rest: Seq<(Option<Seq<u8>>, Option<Seq<u8>>)>|
                (items@.map_values(|p: (CBytes, CBytes)| (p.0@, p.1@)).push((k, v)) + rest) =~= (
                items@.map_values(|p: (CBytes, CBytes)| (p.0@, p.1@)) + (seq![(k, v)] + rest)) by {}
            consumed = consumed + used_k + used_v;
        }
        items.push((key, val));
        i = i + 1;
    }
    proof {
        assert(parse_cbytes_pairs(c.remaining(), 0) == Ok::<
            (Seq<(Option<Seq<u8>>, Option<Seq<u8>>)>, int),
            DecodeError,
        >((Seq::empty(), 0)));
        assert(items@.map_values(|p: (CBytes, CBytes)| (p.0@, p.1@)) + Seq::<
            (Option<Seq<u8>>, Option<Seq<u8>>),
        >::empty() =~= items@.map_values(|p: (CBytes, CBytes)| (p.0@, p.1@)));
    }
    Ok(items)
}

/// A string list field: 2-byte count, then that many string fields, in
/// wire order.
#[derive(Debug, Clone)]
pub struct CStringList {
    items: Vec<CString>,
}

impl View for CStringList {
    type V = Seq<Seq<u8>>;

    closed spec fn view(&self) -> Seq<Seq<u8>> {
        self.items@.map_values(|cs: CString| cs@)
    }
}

impl CStringList {
    /// Wraps already-decoded strings.
    pub fn new(items: Vec<CString>) -> (r: CStringList)
        ensures
            r@ == items@.map_values(|cs: CString| cs@),
    {
        CStringList { items }
    }

    /// How many strings the list holds.
    pub fn len(&self) -> (r: usize)
        ensures
            r == self@.len(),
    {
        self.items.len()
    }

    /// The string at `i`, in wire order.
    pub fn get(&self, i: usize) -> (r: &CString)
        requires
            i < self@.len(),
        ensures
            r@ == self@[i as int],
    {
        &self.items[i]
    }

    /// Reads a string list field and advances past it.
    pub fn from_cursor(c: &mut Cursor) -> (r: Result<CStringList, DecodeError>)
        requires
            old(c).wf(),
        ensures
            final(c).wf(),
            match parse_cstring_list(old(c).remaining()) {
                Ok((items, used)) => r is Ok && r->Ok_0@ == items && final(c).remaining() == old(
                    c,
                ).remaining().skip(used),
                Err(e) => r is Err && r->Err_0 == e,
            },
    {
        let ghost s0 = c.remaining();
        let n = match read_short(c) {
            Ok(v) => v,
            Err(e) => { return Err(e) },
        };
        let ghost s1 = c.remaining();
        let mut items: Vec<CString> = Vec::new();
        let ghost mut consumed: int = 0;
        let mut i: usize = 0;
        while i < n as usize
            invariant
                c.wf(),
                i <= n,
                s0 == old(c).remaining(),
                s1 == s0.skip(2),
                parse_short(s0) == Ok::<(int, int), DecodeError>((n as int, 2)),
                0 <= consumed <= s1.len(),
                c.remaining() == s1.skip(consumed),
                parse_cstrings(s1, n as int) == (match parse_cstrings(
                    c.remaining(),
                    n as int - i,
                ) {
                    Ok((rest, more)) => Ok::<(Seq<Seq<u8>>, int), DecodeError>(
                        (items@.map_values(|cs: CString| cs@) + rest, consumed + more),
                    ),
                    Err(e) => Err::<(Seq<Seq<u8>>, int), DecodeError>(e),
                }),
            decreases n as int - i,
        {
            let ghost cur = c.remaining();
            let cs = match CString::from_cursor(c) {
                Ok(v) => v,
                Err(e) => {
                    proof {
                        assert(parse_cstrings(cur, n as int - i) == Err::<
                            (Seq<Seq<u8>>, int),
                            DecodeError,
                        >(e));
                        assert(parse_cstrings(s1, n as int) == Err::<
                            (Seq<Seq<u8>>, int),
                            DecodeError,
                        >(e));
                        assert(parse_short(s0) == Ok::<(int, int), DecodeError>((n as int, 2)));
                        assert(parse_cstring_list(s0) == Err::<(Seq<Seq<u8>>, int), DecodeError>(
                            e,
                        ));
                    }
                    return Err(e);
                },
            };
            proof {
                let used = parse_cstring(cur)->Ok_0.1;
                let content = parse_cstring(cur)->Ok_0.0;
                assert(parse_cstrings(cur, n as int - i) == (match parse_cstrings(
                    cur.skip(used),
                    n as int - i - 1,
                ) {
                    Ok((rest, more)) => Ok::<(Seq<Seq<u8>>, int), DecodeError>(
                        (seq![content] + rest, used + more),
                    ),
                    Err(e) => Err::<(Seq<Seq<u8>>, int), DecodeError>(e),
                }));
                assert(s1.skip(consumed).skip(used) =~= s1.skip(consumed + used));
                assert(items@.push(cs).map_values(|x: CString| x@) =~= items@.map_values(
                    |x: CString| x@,
                ).push(content));
                assert forall|rest: Seq<Seq<u8>>|
                    (items@.map_values(|x: CString| x@).push(content) + rest) =~= (
                    items@.map_values(|x: CString| x@) + (seq![content] + rest)) by {}
                consumed = consumed + used;
            }
            items.push(cs);
            i = i + 1;
        }
        proof {
            assert(parse_cstrings(c.remaining(), 0) == Ok::<(Seq<Seq<u8>>, int), DecodeError>(
                (Seq::empty(), 0),
            ));
            assert(items@.map_values(|cs: CString| cs@) + Seq::<Seq<u8>>::empty() =~= items@
                .map_values(|cs: CString| cs@));
        }
        Ok(CStringList { items })
    }
}

} // verus!
