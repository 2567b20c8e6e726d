//! The wire codec of the TCP transport.
//!
//! Inbound bytes accumulate in a buffer until the four-byte ASCII marker
//! `<NL>` appears; everything before the first marker is trimmed of
//! surrounding whitespace and emitted as one decoded line, and the bytes
//! after the marker stay for the next attempt. Encoding is pass-through:
//! outbound text is written verbatim, and the message templates embed the
//! marker themselves.

use crate::external::{
    ascii_chars, buf_as_slice, buf_extend, buf_split_to, bytes_view, from_utf8_lossy,
    is_ascii_bytes, lossy_decode,
};
use vstd::prelude::*;
use vstd::slice::slice_subrange;
use vstd::utf8::encode_utf8;

verus! {

/// Does `n` occur in `h` starting at index `i`?
pub open spec fn matches_at(h: Seq<u8>, n: Seq<u8>, i: int) -> bool {
    &&& 0 <= i
    &&& i + n.len() <= h.len()
    &&& h.subrange(i, i + n.len()) == n
}

/// Is `i` the first occurrence of `n` in `h`?
pub open spec fn is_first_match(h: Seq<u8>, n: Seq<u8>, i: int) -> bool {
    &&& matches_at(h, n, i)
    &&& forall|j: int| 0 <= j < i ==> !matches_at(h, n, j)
}

/// Find the first occurrence of `needle` inside `haystack`.
pub fn find_subsequence(haystack: &[u8], needle: &[u8]) -> (r: Option<usize>)
    requires
        needle@.len() > 0,
    ensures
        match r {
            Some(i) => is_first_match(haystack@, needle@, i as int),
            None => forall|j: int| !matches_at(haystack@, needle@, j),
        },
{
    let hlen = haystack.len();
    let nlen = needle.len();
    if hlen < nlen {
        return None;
    }
    let mut i: usize = 0;
    while i <= hlen - nlen
        invariant
            nlen == needle@.len(),
            hlen == haystack@.len(),
            nlen <= hlen,
            i <= hlen - nlen + 1,
            forall|j: int| 0 <= j < i ==> !matches_at(haystack@, needle@, j),
        decreases hlen - nlen + 1 - i,
    {
        let mut k: usize = 0;
        let mut matched = true;
        while k < nlen
            invariant_except_break
                matched,
                nlen == needle@.len(),
                hlen == haystack@.len(),
                i + nlen <= hlen,
                k <= nlen,
                forall|m: int| 0 <= m < k ==> haystack@[i + m] == needle@[m],
            ensures
                i + nlen <= hlen,
                nlen == needle@.len(),
                hlen == haystack@.len(),
                matched ==> forall|m: int| 0 <= m < nlen ==> haystack@[i + m] == needle@[m],
                !matched ==> exists|m: int|
                    0 <= m < nlen && haystack@[i + m] != needle@[m],
            decreases nlen - k,
        {
            if haystack[i + k] != needle[k] {
                matched = false;
                break;
            }
            k = k + 1;
        }
        if matched {
            proof {
                assert(haystack@.subrange(i as int, i + nlen) =~= needle@);
            }
            return Some(i);
        }
        proof {
            let m = choose|m: int| 0 <= m < nlen && haystack@[i + m] != needle@[m];
            assert(!matches_at(haystack@, needle@, i as int)) by {
                if matches_at(haystack@, needle@, i as int) {
                    assert(haystack@.subrange(i as int, i + nlen)[m] == haystack@[i + m]);
                }
            }
        }
        i = i + 1;
    }
    proof {
        assert forall|j: int| !matches_at(haystack@, needle@, j) by {
            if matches_at(haystack@, needle@, j) {
                assert(j + nlen <= hlen);
            }
        }
    }
    None
}

/// The bytes the codec trims from both ends of a decoded line: ASCII
/// whitespace and the other ASCII control characters `trim` removes.
pub open spec fn is_trim_byte(b: u8) -> bool {
    9 <= b <= 13 || b == 32
}

/// A byte sequence with the whitespace stripped from both ends.
pub open spec fn trim_bytes(b: Seq<u8>) -> Seq<u8>
    decreases b.len(),
{
    if b.len() == 0 {
        b
    } else if is_trim_byte(b[0]) {
        trim_bytes(b.skip(1))
    } else if is_trim_byte(b.last()) {
        trim_bytes(b.take(b.len() - 1))
    } else {
        b
    }
}

/// Trimming an all-whitespace sequence leaves nothing.
proof fn lemma_trim_all(b: Seq<u8>)
    requires
        forall|j: int| 0 <= j < b.len() ==> is_trim_byte(b[j]),
    ensures
        trim_bytes(b) == Seq::<u8>::empty(),
    decreases b.len(),
{
    if b.len() == 0 {
        assert(b =~= Seq::<u8>::empty());
    } else {
        assert forall|j: int| 0 <= j < b.skip(1).len() implies is_trim_byte(b.skip(1)[j]) by {
            assert(b.skip(1)[j] == b[j + 1]);
        }
        lemma_trim_all(b.skip(1));
    }
}

/// Trimming keeps exactly the span from the first to the last
/// non-whitespace byte.
proof fn lemma_trim_core(b: Seq<u8>, lo: int, hi: int)
    requires
        0 <= lo < hi <= b.len(),
        forall|j: int| 0 <= j < lo ==> is_trim_byte(b[j]),
        forall|j: int| hi <= j < b.len() ==> is_trim_byte(b[j]),
        !is_trim_byte(b[lo]),
        !is_trim_byte(b[hi - 1]),
    ensures
        trim_bytes(b) == b.subrange(lo, hi),
    decreases b.len(),
{
    if lo > 0 {
        let t = b.skip(1);
        assert forall|j: int| 0 <= j < lo - 1 implies is_trim_byte(t[j]) by {
            assert(t[j] == b[j + 1]);
        }
        assert forall|j: int| hi - 1 <= j < t.len() implies is_trim_byte(t[j]) by {
            assert(t[j] == b[j + 1]);
        }
        assert(t[lo - 1] == b[lo]);
        assert(t[hi - 2] == b[hi - 1]);
        lemma_trim_core(t, lo - 1, hi - 1);
        assert(t.subrange(lo - 1, hi - 1) =~= b.subrange(lo, hi));
    } else if hi < b.len() {
        assert(is_trim_byte(b.last()));
        let t = b.take(b.len() - 1);
        assert forall|j: int| hi <= j < t.len() implies is_trim_byte(t[j]) by {
            assert(t[j] == b[j]);
        }
        assert(t[lo] == b[lo]);
        assert(t[hi - 1] == b[hi - 1]);
        lemma_trim_core(t, lo, hi);
        assert(t.subrange(lo, hi) =~= b.subrange(lo, hi));
    } else {
        assert(!is_trim_byte(b[0]));
        assert(!is_trim_byte(b.last()));
        assert(b.subrange(0, b.len() as int) =~= b);
    }
}

fn is_trim_byte_exec(b: u8) -> (r: bool)
    ensures
        r == is_trim_byte(b),
{
    (9 <= b && b <= 13) || b == 32
}

/// The bounds of the non-whitespace span of `bytes@.take(end)`.
fn trim_bounds(bytes: &[u8], end: usize) -> (r: (usize, usize))
    requires
        end <= bytes@.len(),
    ensures
        r.0 <= r.1 <= end,
        trim_bytes(bytes@.take(end as int)) == bytes@.subrange(r.0 as int, r.1 as int),
{
    let mut lo: usize = 0;
    while lo < end
        invariant_except_break
            end <= bytes@.len(),
            lo <= end,
            forall|j: int| 0 <= j < lo ==> is_trim_byte(bytes@[j]),
        ensures
            lo <= end,
            end <= bytes@.len(),
            forall|j: int| 0 <= j < lo ==> is_trim_byte(bytes@[j]),
            lo == end || !is_trim_byte(bytes@[lo as int]),
        decreases end - lo,
    {
        if !is_trim_byte_exec(bytes[lo]) {
            break;
        }
        lo = lo + 1;
    }
    let t = Ghost(bytes@.take(end as int));
    if lo == end {
        proof {
            assert forall|j: int| 0 <= j < t@.len() implies is_trim_byte(t@[j]) by {
                assert(t@[j] == bytes@[j]);
            }
            lemma_trim_all(t@);
            assert(bytes@.subrange(end as int, end as int) =~= Seq::<u8>::empty());
        }
        return (end, end);
    }
    let mut hi: usize = end;
    while hi > lo
        invariant_except_break
            lo <= hi <= end,
            end <= bytes@.len(),
            forall|j: int| hi <= j < end ==> is_trim_byte(bytes@[j]),
        ensures
            lo <= hi <= end,
            end <= bytes@.len(),
            forall|j: int| hi <= j < end ==> is_trim_byte(bytes@[j]),
            hi == lo || !is_trim_byte(bytes@[hi - 1]),
        decreases hi,
    {
        if !is_trim_byte_exec(bytes[hi - 1]) {
            break;
        }
        hi = hi - 1;
    }
    proof {
        assert(hi > lo) by {
            if hi == lo {
                assert(is_trim_byte(bytes@[lo as int]));
            }
        }
        assert forall|j: int| 0 <= j < lo implies is_trim_byte(t@[j]) by {
            assert(t@[j] == bytes@[j]);
        }
        assert forall|j: int| hi <= j < t@.len() implies is_trim_byte(t@[j]) by {
            assert(t@[j] == bytes@[j]);
        }
        assert(t@[lo as int] == bytes@[lo as int]);
        assert(t@[hi - 1] == bytes@[hi - 1]);
        lemma_trim_core(t@, lo as int, hi as int);
        assert(t@.subrange(lo as int, hi as int) =~= bytes@.subrange(lo as int, hi as int));
    }
    (lo, hi)
}

/// The four-byte ASCII marker `<NL>` that ends each logical line.
pub open spec fn nl_marker() -> Seq<u8> {
    "<NL>"@.map_values(|c: char| c as u8)
}

/// Does the buffer hold a complete line?
pub open spec fn has_marker(b: Seq<u8>) -> bool {
    exists|i: int| matches_at(b, nl_marker(), i)
}

/// The line decoded when the first marker stands at `i`: the bytes before
/// it, trimmed, decoded as text.
pub open spec fn decoded_line(b: Seq<u8>, i: int) -> Seq<char> {
    lossy_decode(trim_bytes(b.take(i)))
}

/// The line-oriented codec of the TCP transport. It keeps no state of its
/// own: the unconsumed bytes live in the buffer handed to `decode`.
pub struct TrustTcpCodec;

impl TrustTcpCodec {
    /// Try to decode one line from the front of `src`. Without a complete
    /// line the buffer is left untouched; with one, the consumed bytes
    /// leave the buffer.
    pub fn decode(&mut self, src: &mut bytes::BytesMut) -> (r: Option<String>)
        ensures
            match r {
                None => {
                    &&& !has_marker(bytes_view(*old(src)))
                    &&& bytes_view(*final(src)) == bytes_view(*old(src))
                },
                Some(line) => exists|i: int|
                    {
                        &&& #[trigger] is_first_match(bytes_view(*old(src)), nl_marker(), i)
                        &&& line@ == decoded_line(bytes_view(*old(src)), i)
                        &&& is_ascii_bytes(trim_bytes(bytes_view(*old(src)).take(i)))
                            ==> line@ == ascii_chars(trim_bytes(bytes_view(*old(src)).take(i)))
                        &&& bytes_view(*final(src)) == bytes_view(*old(src)).skip(i + 4)
                    },
            },
    {
        let marker: Vec<u8> = vec![60u8, 78u8, 76u8, 62u8];
        proof {
            reveal_strlit("<NL>");
            assert(marker@ =~= nl_marker());
        }
        let slice = buf_as_slice(src);
        let slen = slice.len();
        match find_subsequence(slice, marker.as_slice()) {
            None => {
                proof {
                    assert(!has_marker(bytes_view(*src)));
                }
                None
            },
            Some(nl_index) => {
                let ghost old_bytes = bytes_view(*src);
                proof {
                    assert(nl_marker().len() == 4);
                    assert(nl_index + 4 <= slen);
                }
                let line_buf = buf_split_to(src, nl_index + 4);
                let lb = buf_as_slice(&line_buf);
                let (lo, hi) = trim_bounds(lb, nl_index);
                let content = from_utf8_lossy(slice_subrange(lb, lo, hi));
                proof {
                    assert(lb@.take(nl_index as int) =~= old_bytes.take(nl_index as int));
                    assert(lb@.subrange(lo as int, hi as int) == trim_bytes(
                        old_bytes.take(nl_index as int),
                    ));
                    assert(is_first_match(old_bytes, nl_marker(), nl_index as int));
                }
                Some(content)
            },
        }
    }

    /// Write `msg` verbatim to the back of `dst`: the codec appends no
    /// framing of its own.
    pub fn encode(&mut self, msg: String, dst: &mut bytes::BytesMut)
        ensures
            bytes_view(*final(dst)) == bytes_view(*old(dst)) + encode_utf8(msg@),
    {
        buf_extend(dst, msg.as_str().as_bytes());
    }
}

/// Splitting the inbound bytes across partial writes changes nothing:
/// while the accumulated bytes hold no marker, no line is emitted, and
/// the first line emitted after more bytes arrive is decided by the
/// accumulated sequence alone — in particular it can only complete with
/// bytes of the later write.
pub proof fn lemma_partial_write_emits_nothing_early(b1: Seq<u8>, b2: Seq<u8>, i: int)
    requires
        !has_marker(b1),
        is_first_match(b1 + b2, nl_marker(), i),
    ensures
        i + nl_marker().len() > b1.len(),
{
    if i + nl_marker().len() <= b1.len() {
        assert((b1 + b2).subrange(i, i + nl_marker().len()) =~= b1.subrange(
            i,
            i + nl_marker().len(),
        ));
        assert(matches_at(b1, nl_marker(), i));
    }
}

} // verus!
