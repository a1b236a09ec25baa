//! Helpers for the host-side process that consumes the telemetry stream:
//! pulling the JSON object out of a diagnostic log line, taking a broker
//! URL apart, and building the topic a reading is published under.
//!
//! Text is handled at the byte level — each function's contract speaks of
//! the UTF-8 bytes of its input — and substrings are carved out at
//! positions proven to be character boundaries.

use vstd::prelude::*;

verus! {

use vstd::string::StringSliceAdditionalSpecFns;
use vstd::string::StringExecFns;
use vstd::utf8::{
    encode_utf8, valid_utf8, is_char_boundary, is_ascii_chars, is_continuation_byte,
    length_of_first_scalar, pop_first_scalar,
};
use crate::text::{
    first_match, find_subslice, first_index_of, find_byte, all_digits, digits_value, check_digits,
    digits_value_capped, trim, trim_start, trim_end, trim_start_index, trim_end_index,
    strip_suffix_all, is_ws, lemma_first_match_skip, lemma_first_index_of_skip, B_PLUS,
};

broadcast use vstd::utf8::group_utf8_lib, vstd::string::is_ascii_spec_bytes;

/// An ASCII byte marks a character boundary where it stands and right
/// after itself.
pub proof fn lemma_ascii_byte_boundaries(bytes: Seq<u8>, i: int)
    requires
        valid_utf8(bytes),
        0 <= i < bytes.len(),
        bytes[i] < 0x80,
    ensures
        is_char_boundary(bytes, i),
        is_char_boundary(bytes, i + 1),
{
    assert(!is_continuation_byte(bytes[i]));
    assert(is_char_boundary(bytes, i));
    if i + 1 == bytes.len() {
        assert(is_char_boundary(bytes, i + 1));
    } else {
        let tail = bytes.subrange(i, bytes.len() as int);
        assert(valid_utf8(tail));
        assert(tail[0] == bytes[i]);
        assert(length_of_first_scalar(tail) == 1);
        let tail2 = pop_first_scalar(tail);
        assert(valid_utf8(tail2));
        assert(tail2.len() > 0);
        assert(is_char_boundary(tail2, 0));
        assert(!is_continuation_byte(tail2[0]));
        assert(tail2[0] == bytes[i + 1]);
        assert(is_char_boundary(bytes, i + 1));
    }
}

/// The characters of the marker that precedes the JSON object in a log
/// line.
pub open spec fn vcp_marker_chars() -> Seq<char> {
    "JSON sent via VCP: "@
}

/// The marker's bytes (it is plain ASCII).
pub open spec fn vcp_marker_bytes() -> Seq<u8> {
    encode_utf8(vcp_marker_chars())
}

/// The two characters that open a trailing source-location suffix.
pub open spec fn loc_sep_chars() -> Seq<char> {
    " ("@
}

/// Those two characters' bytes.
pub open spec fn loc_sep_bytes() -> Seq<u8> {
    encode_utf8(loc_sep_chars())
}

proof fn lemma_marker_ascii()
    ensures
        is_ascii_chars(vcp_marker_chars()),
        vcp_marker_chars().len() == 19,
        vcp_marker_bytes().len() == 19,
{
    reveal_strlit("JSON sent via VCP: ");
    assert(is_ascii_chars(vcp_marker_chars()));
}

proof fn lemma_loc_sep_ascii()
    ensures
        is_ascii_chars(loc_sep_chars()),
        loc_sep_chars().len() == 2,
        loc_sep_bytes().len() == 2,
{
    reveal_strlit(" (");
    assert(is_ascii_chars(loc_sep_chars()));
}

/// Copies `s`'s bytes `lo..hi` out as an owned string. Both positions
/// must be character boundaries.
fn substring_to_string(s: &str, lo: usize, hi: usize) -> (r: String)
    requires
        lo <= hi <= s.spec_bytes().len(),
        is_char_boundary(s.spec_bytes(), lo as int),
        is_char_boundary(s.spec_bytes(), hi as int),
    ensures
        encode_utf8(r@) == s.spec_bytes().subrange(lo as int, hi as int),
{
    let (_, tail) = s.split_at(lo);
    proof {
        assert(tail.spec_bytes() =~= s.spec_bytes().subrange(
            lo as int,
            s.spec_bytes().len() as int,
        ));
        assert(valid_utf8(tail.spec_bytes()));
        if (hi - lo) as int == tail.spec_bytes().len() as int {
            assert(is_char_boundary(tail.spec_bytes(), (hi - lo) as int));
        } else {
            assert(valid_utf8(s.spec_bytes()));
            assert(!is_continuation_byte(s.spec_bytes()[hi as int]));
            assert(tail.spec_bytes()[(hi - lo) as int] == s.spec_bytes()[hi as int]);
            assert(is_char_boundary(tail.spec_bytes(), (hi - lo) as int));
        }
    }
    let (mid, _) = tail.split_at(hi - lo);
    proof {
        assert(mid.spec_bytes() =~= s.spec_bytes().subrange(lo as int, hi as int));
    }
    mid.to_owned()
}

/// Joins a topic prefix, a node name and a metric name with slashes —
/// the topic hierarchy a reading is published under.
pub fn build_topic(prefix: &str, node: &str, metric: &str) -> (r: String)
    ensures
        r@ == prefix@ + "/"@ + node@ + "/"@ + metric@,
{
    let mut s = prefix.to_owned();
    s.append("/");
    s.append(node);
    s.append("/");
    s.append(metric);
    proof {
        assert(s@ =~= prefix@ + "/"@ + node@ + "/"@ + metric@);
    }
    s
}

/// Why a broker URL was refused.
#[derive(Debug, Clone, Copy, PartialEq, Eq, Structural)]
pub enum BrokerUrlError {
    /// The URL does not start with a recognized scheme.
    InvalidScheme,
    /// The text after the colon is not a port number.
    InvalidPort,
}

/// The bytes of the plain scheme prefix.
pub open spec fn mqtt_prefix_bytes() -> Seq<u8> {
    encode_utf8("mqtt://"@)
}

/// The bytes of the TLS scheme prefix.
pub open spec fn mqtts_prefix_bytes() -> Seq<u8> {
    encode_utf8("mqtts://"@)
}

proof fn lemma_scheme_ascii()
    ensures
        is_ascii_chars("mqtt://"@),
        is_ascii_chars("mqtts://"@),
        mqtt_prefix_bytes().len() == 7,
        mqtts_prefix_bytes().len() == 8,
{
    reveal_strlit("mqtt://");
    reveal_strlit("mqtts://");
    assert(is_ascii_chars("mqtt://"@));
    assert(is_ascii_chars("mqtts://"@));
}

/// What taking a broker URL apart yields: the scheme prefix is stripped,
/// the host runs to the first colon if any, the port is the decimal text
/// after that colon — an optional plus sign, then digits, as the standard
/// unsigned parser reads it — or 1883 when there is no colon.
pub open spec fn spec_parse_broker_url(bytes: Seq<u8>) -> Result<(Seq<u8>, u16), BrokerUrlError> {
    let rest = if has_prefix(bytes, mqtt_prefix_bytes()) {
        Some(bytes.skip(mqtt_prefix_bytes().len() as int))
    } else if has_prefix(bytes, mqtts_prefix_bytes()) {
        Some(bytes.skip(mqtts_prefix_bytes().len() as int))
    } else {
        None
    };
    match rest {
        None => Err(BrokerUrlError::InvalidScheme),
        Some(r) => match first_index_of(r, 0, 58) {
            None => Ok((r, 1883u16)),
            Some(c) => {
                let port_field = r.skip(c + 1);
                let port = if port_field.len() > 0 && port_field[0] == B_PLUS {
                    port_field.skip(1)
                } else {
                    port_field
                };
                if port.len() == 0 || !all_digits(port) || digits_value(port) > 65535 {
                    Err(BrokerUrlError::InvalidPort)
                } else {
                    Ok((r.take(c), digits_value(port) as u16))
                }
            },
        },
    }
}

/// Splits a broker URL into host and port: `mqtt://` or `mqtts://`, the
/// host up to the first colon, and a decimal port after it — 1883 when no
/// port is given.
pub fn parse_broker_url(url: &str) -> (r: Result<(String, u16), BrokerUrlError>)
    ensures
        match spec_parse_broker_url(url.spec_bytes()) {
            Err(e) => r == Err::<(String, u16), BrokerUrlError>(e),
            Ok((h, p)) => r matches Ok((host, port)) && encode_utf8(host@) == h && port == p,
        },
{
    proof {
        lemma_scheme_ascii();
        assert(valid_utf8(url.spec_bytes()));
    }
    let b = url.as_bytes();
    let n = b.len();
    let plen: usize;
    if str_has_prefix(url, "mqtt://") {
        plen = 7;
        proof {
            assert(url.spec_bytes().subrange(0, 7) == mqtt_prefix_bytes());
        }
    } else if str_has_prefix(url, "mqtts://") {
        plen = 8;
        proof {
            assert(url.spec_bytes().subrange(0, 8) == mqtts_prefix_bytes());
        }
    } else {
        return Err(BrokerUrlError::InvalidScheme);
    }
    let ghost rest = url.spec_bytes().skip(plen as int);
    proof {
        // The byte before the stripped prefix's end is an ASCII slash.
        assert(b@[plen - 1] < 0x80) by {
            if plen == 7 {
                assert(b@[plen - 1] == mqtt_prefix_bytes()[plen - 1]);
                assert(("mqtt://"@)[plen - 1] as u8 == mqtt_prefix_bytes()[plen - 1]);
            } else {
                assert(b@[plen - 1] == mqtts_prefix_bytes()[plen - 1]);
                assert(("mqtts://"@)[plen - 1] as u8 == mqtts_prefix_bytes()[plen - 1]);
            }
        }
        lemma_ascii_byte_boundaries(b@, plen - 1);
        lemma_first_index_of_skip(b@, plen as int, plen as int, 58);
    }
    match find_byte(b, plen, 58) {
        None => {
            proof {
                assert(is_char_boundary(b@, n as int));
                assert(rest =~= url.spec_bytes().subrange(plen as int, n as int));
            }
            let host = substring_to_string(url, plen, n);
            Ok((host, 1883))
        },
        Some(c) => {
            proof {
                assert(rest.skip(c - plen + 1) =~= b@.subrange(c as int + 1, n as int));
            }
            let dlo = if c + 1 < n && b[c + 1] == B_PLUS {
                proof {
                    assert(b@.subrange(c as int + 1, n as int).skip(1) =~= b@.subrange(
                        c as int + 2,
                        n as int,
                    ));
                }
                c + 2
            } else {
                c + 1
            };
            if dlo == n {
                return Err(BrokerUrlError::InvalidPort);
            }
            if !check_digits(b, dlo, n) {
                return Err(BrokerUrlError::InvalidPort);
            }
            let v = digits_value_capped(b, dlo, n, 65536);
            if v > 65535 {
                return Err(BrokerUrlError::InvalidPort);
            }
            proof {
                lemma_ascii_byte_boundaries(b@, c as int);
                assert(rest.take(c - plen) =~= b@.subrange(plen as int, c as int));
            }
            let host = substring_to_string(url, plen, c);
            Ok((host, v as u16))
        },
    }
}

/// End of `s[lo..hi]` once trailing line-feed bytes are removed.
fn strip_lf_end(s: &[u8], lo: usize, hi: usize) -> (r: usize)
    requires
        lo <= hi <= s@.len(),
    ensures
        lo <= r <= hi,
        strip_suffix_all(s@.subrange(lo as int, hi as int), seq![10u8]) == s@.subrange(
            lo as int,
            r as int,
        ),
        r < hi ==> s@[r as int] == 10,
{
    let mut i = hi;
    while i > lo
        invariant
            lo <= i <= hi <= s@.len(),
            strip_suffix_all(s@.subrange(lo as int, hi as int), seq![10u8]) == strip_suffix_all(
                s@.subrange(lo as int, i as int),
                seq![10u8],
            ),
            i < hi ==> s@[i as int] == 10,
        ensures
            lo <= i <= hi,
            strip_suffix_all(s@.subrange(lo as int, hi as int), seq![10u8]) == s@.subrange(
                lo as int,
                i as int,
            ),
            i < hi ==> s@[i as int] == 10,
        decreases i,
    {
        let ghost sub = s@.subrange(lo as int, i as int);
        if s[i - 1] != 10 {
            proof {
                assert(sub.subrange(sub.len() - 1, sub.len() as int) =~= seq![s@[i - 1]]);
                assert(sub.subrange(sub.len() - 1, sub.len() as int) != seq![10u8]) by {
                    if sub.subrange(sub.len() - 1, sub.len() as int) == seq![10u8] {
                        assert(seq![s@[i - 1]][0] == seq![10u8][0]);
                    }
                }
                assert(strip_suffix_all(sub, seq![10u8]) == sub);
            }
            break ;
        }
        proof {
            assert(sub.subrange(sub.len() - 1, sub.len() as int) =~= seq![10u8]);
            assert(sub.take(sub.len() - 1) =~= s@.subrange(lo as int, i as int - 1));
        }
        i = i - 1;
    }
    proof {
        if i == lo {
            assert(s@.subrange(lo as int, lo as int).len() == 0);
        }
    }
    i
}

/// End of `s[lo..hi]` once every trailing two-byte `\n` escape
/// (backslash then `n`) is removed.
fn strip_nl_escape_end(s: &[u8], lo: usize, hi: usize) -> (r: usize)
    requires
        lo <= hi <= s@.len(),
    ensures
        lo <= r <= hi,
        strip_suffix_all(s@.subrange(lo as int, hi as int), seq![92u8, 110u8]) == s@.subrange(
            lo as int,
            r as int,
        ),
        r < hi ==> s@[r as int] == 92,
{
    let mut i = hi;
    while i > lo
        invariant
            lo <= i <= hi <= s@.len(),
            strip_suffix_all(s@.subrange(lo as int, hi as int), seq![92u8, 110u8])
                == strip_suffix_all(s@.subrange(lo as int, i as int), seq![92u8, 110u8]),
            i < hi ==> s@[i as int] == 92,
        ensures
            lo <= i <= hi,
            strip_suffix_all(s@.subrange(lo as int, hi as int), seq![92u8, 110u8]) == s@.subrange(
                lo as int,
                i as int,
            ),
            i < hi ==> s@[i as int] == 92,
        decreases i,
    {
        let ghost sub = s@.subrange(lo as int, i as int);
        if i - lo < 2 {
            proof {
                assert(strip_suffix_all(sub, seq![92u8, 110u8]) == sub);
            }
            break ;
        }
        if !(s[i - 2] == 92 && s[i - 1] == 110) {
            proof {
                assert(sub.subrange(sub.len() - 2, sub.len() as int) =~= seq![
                    s@[i - 2],
                    s@[i - 1],
                ]);
                assert(sub.subrange(sub.len() - 2, sub.len() as int) != seq![92u8, 110u8]) by {
                    if sub.subrange(sub.len() - 2, sub.len() as int) == seq![92u8, 110u8] {
                        assert(seq![s@[i - 2], s@[i - 1]][0] == seq![92u8, 110u8][0]);
                        assert(seq![s@[i - 2], s@[i - 1]][1] == seq![92u8, 110u8][1]);
                    }
                }
                assert(strip_suffix_all(sub, seq![92u8, 110u8]) == sub);
            }
            break ;
        }
        proof {
            assert(sub.subrange(sub.len() - 2, sub.len() as int) =~= seq![92u8, 110u8]);
            assert(sub.take(sub.len() - 2) =~= s@.subrange(lo as int, i as int - 2));
        }
        i = i - 2;
    }
    proof {
        if i == lo {
            assert(s@.subrange(lo as int, lo as int).len() == 0);
        }
    }
    i
}

/// What pulling the JSON object out of a log line yields: the text after
/// the first marker occurrence, cut at any source-location suffix, with
/// whitespace trimmed, every trailing `\n` escape and newline removed,
/// and whitespace trimmed once more. `None` when the marker is absent.
/// Whitespace here is ASCII whitespace; whitespace characters beyond
/// ASCII are left in place.
pub open spec fn spec_extract(bytes: Seq<u8>) -> Option<Seq<u8>> {
    match first_match(bytes, vcp_marker_bytes(), 0) {
        None => None,
        Some(i) => {
            let tail = bytes.skip(i + vcp_marker_bytes().len());
            let head = match first_match(tail, loc_sep_bytes(), 0) {
                None => tail,
                Some(j) => tail.take(j),
            };
            let t1 = trim(head);
            let t2 = strip_suffix_all(t1, seq![92u8, 110u8]);
            let t3 = strip_suffix_all(t2, seq![10u8]);
            Some(trim(t3))
        },
    }
}

/// Pulls the JSON object out of a diagnostic log line: the text after the
/// marker `JSON sent via VCP: `, cut before any ` (` source-location
/// suffix, with surrounding ASCII whitespace, trailing `\n` escapes and
/// trailing newlines removed. `None` when the marker is absent.
pub fn extract_json_from_log_line(line: &str) -> (r: Option<String>)
    ensures
        match spec_extract(line.spec_bytes()) {
            None => r is None,
            Some(content) => r matches Some(out) && encode_utf8(out@) == content,
        },
{
    proof {
        lemma_marker_ascii();
        lemma_loc_sep_ascii();
        assert(valid_utf8(line.spec_bytes()));
    }
    let b = line.as_bytes();
    let n = b.len();
    let marker = "JSON sent via VCP: ";
    let mb = marker.as_bytes();
    let i = match find_subslice(b, 0, mb) {
        None => {
            return None;
        },
        Some(i) => i,
    };
    let m = i + mb.len();
    let ghost tail = b@.skip(m as int);
    proof {
        // The byte before the tail is the marker's last one: ASCII.
        assert(b@[m - 1] < 0x80) by {
            assert(b@[m - 1] == b@.subrange(i as int, m as int)[mb@.len() - 1]);
            assert(vcp_marker_chars()[mb@.len() - 1] as u8 == vcp_marker_bytes()[mb@.len() - 1]);
        }
        lemma_first_match_skip(b@, loc_sep_bytes(), m as int, m as int);
    }
    let sep = " (";
    let sb = sep.as_bytes();
    let hi1 = match find_subslice(b, m, sb) {
        None => n,
        Some(j) => j,
    };
    proof {
        if first_match(tail, loc_sep_bytes(), 0) is Some {
            assert(tail.take(hi1 - m) =~= b@.subrange(m as int, hi1 as int));
        } else {
            assert(tail =~= b@.subrange(m as int, n as int));
        }
    }
    let lo2 = trim_start_index(b, m, hi1);
    let hi2 = trim_end_index(b, lo2, hi1);
    let hi3 = strip_nl_escape_end(b, lo2, hi2);
    let hi4 = strip_lf_end(b, lo2, hi3);
    let lo5 = trim_start_index(b, lo2, hi4);
    let hi5 = trim_end_index(b, lo5, hi4);
    proof {
        // Every cut sits beside an ASCII byte, so both ends of the final
        // range are character boundaries.
        if lo5 > lo2 {
            assert(is_ws(b@[lo5 - 1]));
            lemma_ascii_byte_boundaries(b@, lo5 - 1);
        } else if lo5 > m {
            assert(is_ws(b@[lo5 - 1]));
            lemma_ascii_byte_boundaries(b@, lo5 - 1);
        } else {
            lemma_ascii_byte_boundaries(b@, m - 1);
        }
        if hi5 < hi4 {
            assert(is_ws(b@[hi5 as int]));
            lemma_ascii_byte_boundaries(b@, hi5 as int);
        } else if hi5 < hi3 {
            assert(b@[hi5 as int] == 10);
            lemma_ascii_byte_boundaries(b@, hi5 as int);
        } else if hi5 < hi2 {
            assert(b@[hi5 as int] == 92);
            lemma_ascii_byte_boundaries(b@, hi5 as int);
        } else if hi5 < hi1 {
            assert(is_ws(b@[hi5 as int]));
            lemma_ascii_byte_boundaries(b@, hi5 as int);
        } else if hi5 < n {
            // The cut before a location suffix lands on its space.
            assert(b@[hi5 as int] == b@.subrange(hi1 as int, hi1 + 2)[0]);
            assert(loc_sep_chars()[0] as u8 == loc_sep_bytes()[0]);
            lemma_ascii_byte_boundaries(b@, hi5 as int);
        } else {
            assert(is_char_boundary(b@, n as int));
        }
    }
    Some(substring_to_string(line, lo5, hi5))
}

/// Whether `s`'s bytes start with `p`'s bytes.
pub open spec fn has_prefix(bytes: Seq<u8>, p: Seq<u8>) -> bool {
    bytes.len() >= p.len() && bytes.subrange(0, p.len() as int) == p
}

/// Byte-level prefix test between two strings.
pub fn str_has_prefix(s: &str, p: &str) -> (r: bool)
    ensures
        r == has_prefix(s.spec_bytes(), p.spec_bytes()),
{
    let sb = s.as_bytes();
    let pb = p.as_bytes();
    let pl = pb.len();
    if pl > sb.len() {
        return false;
    }
    let mut i: usize = 0;
    while i < pl
        invariant
            i <= pl == pb@.len(),
            pl <= sb@.len(),
            sb@ == s.spec_bytes(),
            pb@ == p.spec_bytes(),
            forall|x: int| 0 <= x < i ==> sb@[x] == pb@[x],
        decreases pl - i,
    {
        if sb[i] != pb[i] {
            assert(s.spec_bytes().subrange(0, pl as int)[i as int] != p.spec_bytes()[i as int]);
            return false;
        }
        i = i + 1;
    }
    assert(s.spec_bytes().subrange(0, pl as int) =~= p.spec_bytes());
    true
}

} // verus!
