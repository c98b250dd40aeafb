//! The on-disk records, framed and checked by the library itself: the
//! config record `{"token":"..."}` holding the access token, and the
//! notification-cache record `{"list":[...]}` holding the persisted set.
//! Both are JSON-shaped; strings escape the quote and backslash bytes.
//!
//! Encoding and decoding are exact inverses: decoding is specified by a
//! parsing function over byte sequences, and every encoder's output is
//! proved to parse back to what was encoded. A caller that finds a file
//! which does not parse treats the record as absent.

use vstd::prelude::*;

use crate::data::Notification;
use crate::data::NotificationView;
use crate::data::Notifications;
use crate::data::Repository;
use crate::data::RepositoryView;
use crate::data::Subject;
use crate::data::SubjectView;

verus! {

pub const QUOTE: u8 = 34;

pub const BACKSLASH: u8 = 92;

pub const COMMA: u8 = 44;

pub const RBRACKET: u8 = 93;

pub const RBRACE: u8 = 125;

/// How one byte is written inside a quoted string.
pub open spec fn escaped_byte(b: u8) -> Seq<u8> {
    if b == QUOTE || b == BACKSLASH {
        seq![BACKSLASH, b]
    } else {
        seq![b]
    }
}

/// How a byte string is written inside quotes.
pub open spec fn escaped(s: Seq<u8>) -> Seq<u8>
    decreases s.len(),
{
    if s.len() == 0 {
        Seq::empty()
    } else {
        escaped_byte(s[0]) + escaped(s.skip(1))
    }
}

/// A byte string written as a quoted, escaped field value.
pub open spec fn quoted(s: Seq<u8>) -> Seq<u8> {
    seq![QUOTE] + escaped(s) + seq![QUOTE]
}

/// `{"token":`
pub open spec fn lit_token_open() -> Seq<u8> {
    seq![123u8, 34, 116, 111, 107, 101, 110, 34, 58]
}

/// The encoded config record holding one access token.
pub open spec fn config_bytes(token: Seq<u8>) -> Seq<u8> {
    lit_token_open() + quoted(token) + seq![RBRACE]
}

/// The bytes of a string body from position `i` up to and past its closing
/// quote, with escapes undone; `None` where no well-formed string body
/// starts at `i`.
pub open spec fn scan_string(data: Seq<u8>, i: int) -> Option<(Seq<u8>, int)>
    decreases data.len() - i,
{
    if i < 0 || i >= data.len() {
        None
    } else if data[i] == QUOTE {
        Some((Seq::empty(), i + 1))
    } else if data[i] == BACKSLASH {
        if i + 1 < data.len() && (data[i + 1] == QUOTE || data[i + 1] == BACKSLASH) {
            match scan_string(data, i + 2) {
                None => None,
                Some((s, j)) => Some((seq![data[i + 1]] + s, j)),
            }
        } else {
            None
        }
    } else {
        match scan_string(data, i + 1) {
            None => None,
            Some((s, j)) => Some((seq![data[i]] + s, j)),
        }
    }
}

/// A quoted field value starting at `i`: an opening quote, a string body,
/// a closing quote.
pub open spec fn scan_quoted(data: Seq<u8>, i: int) -> Option<(Seq<u8>, int)> {
    if 0 <= i < data.len() && data[i] == QUOTE {
        scan_string(data, i + 1)
    } else {
        None
    }
}

/// The literal `lit` stands in `data` at position `i`.
pub open spec fn lit_at(data: Seq<u8>, i: int, lit: Seq<u8>) -> bool {
    0 <= i && i + lit.len() <= data.len() && data.subrange(i, i + lit.len() as int) == lit
}

/// Consume the literal `lit` at position `i`.
pub open spec fn eat_lit(data: Seq<u8>, i: int, lit: Seq<u8>) -> Option<int> {
    if lit_at(data, i, lit) {
        Some(i + lit.len() as int)
    } else {
        None
    }
}

/// What a config record holds: the token of `{"token":"..."}`, or nothing
/// where the bytes are not exactly such a record.
pub open spec fn parse_config(data: Seq<u8>) -> Option<Seq<u8>> {
    match eat_lit(data, 0, lit_token_open()) {
        None => None,
        Some(j) => match scan_quoted(data, j) {
            None => None,
            Some((token, k)) => if k + 1 == data.len() && data[k] == RBRACE {
                Some(token)
            } else {
                None
            },
        },
    }
}

/// Escaping a string one byte longer appends that byte's escape.
pub proof fn lemma_escaped_snoc(s: Seq<u8>, b: u8)
    ensures
        escaped(s.push(b)) == escaped(s) + escaped_byte(b),
    decreases s.len(),
{
    if s.len() == 0 {
        assert(s.push(b)[0] == b);
        assert(s.push(b).skip(1) =~= Seq::<u8>::empty());
        assert(escaped(s.push(b)) == escaped_byte(b) + escaped(Seq::<u8>::empty()));
        assert(escaped(s.push(b)) =~= escaped(s) + escaped_byte(b));
    } else {
        lemma_escaped_snoc(s.skip(1), b);
        assert(s.push(b).skip(1) =~= s.skip(1).push(b));
        assert(s.push(b)[0] == s[0]);
        assert(escaped(s.push(b)) =~= escaped(s) + escaped_byte(b));
    }
}

/// Scanning a string body over exactly the escape of `s`, with a closing
/// quote after it, recovers `s` and stops past that quote.
pub proof fn lemma_scan_of_escaped(data: Seq<u8>, i: int, s: Seq<u8>)
    requires
        0 <= i,
        i + escaped(s).len() + 1 <= data.len(),
        data.subrange(i, i + escaped(s).len() as int) == escaped(s),
        data[i + escaped(s).len()] == QUOTE,
    ensures
        scan_string(data, i) == Some((s, i + escaped(s).len() + 1)),
    decreases s.len(),
{
    assert forall|k: int| 0 <= k < escaped(s).len() implies data[i + k] == escaped(s)[k] by {
        assert(data.subrange(i, i + escaped(s).len() as int)[k] == data[i + k]);
    }
    if s.len() == 0 {
        assert(data[i] == QUOTE);
        assert(s =~= Seq::<u8>::empty());
    } else {
        let tail = s.skip(1);
        let eb = escaped_byte(s[0]);
        assert(escaped(s) == eb + escaped(tail));
        assert((eb + escaped(tail)).len() == eb.len() + escaped(tail).len());
        assert(escaped(s).len() == eb.len() + escaped(tail).len());
        assert forall|k: int| 0 <= k < eb.len() implies escaped(s)[k] == eb[k] by {
            assert((eb + escaped(tail))[k] == eb[k]);
        }
        assert forall|k: int| 0 <= k < escaped(tail).len() implies escaped(s)[eb.len() + k]
            == escaped(tail)[k] by {
            assert((eb + escaped(tail))[eb.len() + k] == escaped(tail)[k]);
        }
        assert forall|k: int| 0 <= k < escaped(tail).len() implies data.subrange(
            i + eb.len(),
            i + eb.len() + escaped(tail).len() as int,
        )[k] == escaped(tail)[k] by {
            assert(data[i + eb.len() + k] == escaped(s)[eb.len() + k]);
            assert(escaped(s)[eb.len() + k] == escaped(tail)[k]);
        }
        assert(data.subrange(i + eb.len(), i + eb.len() + escaped(tail).len() as int) =~= escaped(
            tail,
        ));
        lemma_scan_of_escaped(data, i + eb.len(), tail);
        if s[0] == QUOTE || s[0] == BACKSLASH {
            assert(eb.len() == 2);
            assert(data[i + 0] == escaped(s)[0]);
            assert(escaped(s)[0] == eb[0]);
            assert(data[i] == BACKSLASH);
            assert(data[i + 1] == escaped(s)[1]);
            assert(escaped(s)[1] == eb[1]);
            assert(data[i + 1] == s[0]);
            assert(scan_string(data, i) == Some((seq![data[i + 1]] + tail, i + escaped(
                s,
            ).len() + 1)));
            assert(seq![data[i + 1]] + tail =~= s);
        } else {
            assert(eb.len() == 1);
            assert(data[i + 0] == escaped(s)[0]);
            assert(escaped(s)[0] == eb[0]);
            assert(data[i] == s[0]);
            assert(data[i] != QUOTE && data[i] != BACKSLASH);
            assert(scan_string(data, i) == Some((seq![data[i]] + tail, i + escaped(
                s,
            ).len() + 1)));
            assert(seq![data[i]] + tail =~= s);
        }
    }
}

/// Peel a literal off the front of a known suffix of the data.
pub proof fn lemma_peel_lit(data: Seq<u8>, i: int, lit: Seq<u8>, rest: Seq<u8>)
    requires
        0 <= i <= data.len(),
        data.subrange(i, data.len() as int) == lit + rest,
    ensures
        eat_lit(data, i, lit) == Some(i + lit.len() as int),
        data.subrange(i + lit.len(), data.len() as int) == rest,
        i + lit.len() <= data.len(),
{
    assert(data.subrange(i, data.len() as int).len() == (lit + rest).len());
    assert((lit + rest).len() == lit.len() + rest.len());
    assert(data.len() - i == lit.len() + rest.len());
    assert forall|k: int| 0 <= k < lit.len() + rest.len() implies data[i + k] == (lit + rest)[k] by {
        assert(data.subrange(i, data.len() as int)[k] == data[i + k]);
    }
    assert forall|k: int| 0 <= k < lit.len() implies (lit + rest)[k] == lit[k] by {}
    assert forall|k: int| 0 <= k < rest.len() implies (lit + rest)[lit.len() + k] == rest[k] by {}
    assert(data.subrange(i, i + lit.len() as int) =~= lit);
    assert(data.subrange(i + lit.len(), data.len() as int) =~= rest);
}

/// Peel a quoted field value off the front of a known suffix of the data.
pub proof fn lemma_peel_quoted(data: Seq<u8>, i: int, s: Seq<u8>, rest: Seq<u8>)
    requires
        0 <= i <= data.len(),
        data.subrange(i, data.len() as int) == quoted(s) + rest,
    ensures
        scan_quoted(data, i) == Some((s, i + quoted(s).len() as int)),
        data.subrange(i + quoted(s).len(), data.len() as int) == rest,
        i + quoted(s).len() <= data.len(),
{
    assert(data.subrange(i, data.len() as int).len() == (quoted(s) + rest).len());
    assert((quoted(s) + rest).len() == quoted(s).len() + rest.len());
    assert((seq![QUOTE] + escaped(s) + seq![QUOTE]).len() == (seq![QUOTE] + escaped(s)).len()
        + seq![QUOTE].len());
    assert((seq![QUOTE] + escaped(s)).len() == 1 + escaped(s).len());
    assert(quoted(s).len() == escaped(s).len() + 2);
    assert(data.len() - i == quoted(s).len() + rest.len());
    assert forall|k: int| 0 <= k < quoted(s).len() + rest.len() implies data[i + k] == (quoted(s)
        + rest)[k] by {
        assert(data.subrange(i, data.len() as int)[k] == data[i + k]);
    }
    assert forall|k: int| 0 <= k < quoted(s).len() implies (quoted(s) + rest)[k] == quoted(
        s,
    )[k] by {}
    assert(quoted(s)[0] == QUOTE) by {
        assert((seq![QUOTE] + escaped(s) + seq![QUOTE])[0] == QUOTE);
    }
    assert(data[i] == QUOTE);
    assert((seq![QUOTE] + escaped(s)).len() == 1 + escaped(s).len());
    assert forall|k: int| 0 <= k < escaped(s).len() implies quoted(s)[1 + k] == escaped(s)[k] by {
        assert(((seq![QUOTE] + escaped(s)) + seq![QUOTE])[1 + k] == (seq![QUOTE] + escaped(s))[1
            + k]);
        assert((seq![QUOTE] + escaped(s))[1 + k] == escaped(s)[k]);
    }
    assert forall|k: int| 0 <= k < escaped(s).len() implies data.subrange(
        i + 1,
        i + 1 + escaped(s).len() as int,
    )[k] == escaped(s)[k] by {
        assert(data[i + (1 + k)] == (quoted(s) + rest)[1 + k]);
        assert((quoted(s) + rest)[1 + k] == quoted(s)[1 + k]);
    }
    assert(data.subrange(i + 1, i + 1 + escaped(s).len() as int) =~= escaped(s));
    assert(quoted(s)[1 + escaped(s).len() as int] == QUOTE) by {
        assert(((seq![QUOTE] + escaped(s)) + seq![QUOTE])[1 + escaped(s).len() as int] == seq![
            QUOTE,
        ][0]);
    }
    assert(data[i + (1 + escaped(s).len())] == (quoted(s) + rest)[1 + escaped(s).len() as int]);
    assert(data[i + 1 + escaped(s).len()] == QUOTE);
    lemma_scan_of_escaped(data, i + 1, s);
    assert forall|k: int| 0 <= k < rest.len() implies data[i + (quoted(s).len() + k)] == rest[k] by {
        assert((quoted(s) + rest)[quoted(s).len() + k] == rest[k]);
    }
    assert(data.subrange(i + quoted(s).len(), data.len() as int) =~= rest);
}

/// Config round trip: an encoded token parses back to exactly that token.
pub proof fn lemma_config_round_trip(token: Seq<u8>)
    ensures
        parse_config(config_bytes(token)) == Some(token),
{
    let data = config_bytes(token);
    assert(data.subrange(0, data.len() as int) =~= lit_token_open() + (quoted(token) + seq![
        RBRACE,
    ]));
    lemma_peel_lit(data, 0, lit_token_open(), quoted(token) + seq![RBRACE]);
    lemma_peel_quoted(data, lit_token_open().len() as int, token, seq![RBRACE]);
    let k = lit_token_open().len() + quoted(token).len() as int;
    assert(data[k] == RBRACE) by {
        assert(data.subrange(k, data.len() as int)[0] == data[k]);
    }
}

/// Append the bytes of `lit` to `out`.
pub fn push_bytes(out: &mut Vec<u8>, lit: &Vec<u8>)
    ensures
        final(out)@ == old(out)@ + lit@,
{
    let ghost orig = out@;
    let mut i: usize = 0;
    while i < lit.len()
        invariant
            i <= lit.len(),
            out@ == orig + lit@.take(i as int),
        decreases lit.len() - i,
    {
        out.push(lit[i]);
        proof {
            assert(out@ =~= orig + lit@.take(i + 1));
        }
        i += 1;
    }
    proof {
        assert(out@ =~= orig + lit@);
    }
}

/// Append `s` to `out` as a quoted, escaped field value.
pub fn push_quoted(out: &mut Vec<u8>, s: &Vec<u8>)
    ensures
        final(out)@ == old(out)@ + quoted(s@),
{
    let ghost orig = out@;
    out.push(QUOTE);
    let mut i: usize = 0;
    while i < s.len()
        invariant
            i <= s.len(),
            out@ == orig + seq![QUOTE] + escaped(s@.take(i as int)),
        decreases s.len() - i,
    {
        proof {
            lemma_escaped_snoc(s@.take(i as int), s@[i as int]);
            assert(s@.take(i + 1) =~= s@.take(i as int).push(s@[i as int]));
        }
        let b = s[i];
        if b == QUOTE || b == BACKSLASH {
            out.push(BACKSLASH);
            out.push(b);
        } else {
            out.push(b);
        }
        proof {
            assert(out@ =~= orig + seq![QUOTE] + escaped(s@.take(i + 1)));
        }
        i += 1;
    }
    out.push(QUOTE);
    proof {
        assert(s@.take(s.len() as int) =~= s@);
        assert(out@ =~= orig + quoted(s@));
    }
}

/// Encode the config record holding `token`.
pub fn encode_config(token: &Vec<u8>) -> (r: Vec<u8>)
    ensures
        r@ == config_bytes(token@),
{
    let mut out: Vec<u8> = Vec::new();
    let open_lit: Vec<u8> = vec![123u8, 34, 116, 111, 107, 101, 110, 34, 58];
    proof {
        assert(open_lit@ =~= lit_token_open());
    }
    push_bytes(&mut out, &open_lit);
    push_quoted(&mut out, token);
    out.push(RBRACE);
    proof {
        assert(out@ =~= config_bytes(token@));
    }
    out
}

/// Match the literal `lit` at position `i` of `data`.
pub fn expect_lit(data: &Vec<u8>, i: usize, lit: &Vec<u8>) -> (r: Option<usize>)
    ensures
        match r {
            Some(j) => eat_lit(data@, i as int, lit@) == Some(j as int) && j == i + lit@.len(),
            None => eat_lit(data@, i as int, lit@) is None,
        },
{
    if lit.len() > data.len() || i > data.len() - lit.len() {
        return None;
    }
    let mut k: usize = 0;
    while k < lit.len()
        invariant
            k <= lit.len(),
            i + lit.len() <= data.len(),
            forall|m: int| 0 <= m < k ==> data@[i + m] == lit@[m],
        decreases lit.len() - k,
    {
        if data[i + k] != lit[k] {
            proof {
                assert(data@.subrange(i as int, i + lit@.len() as int)[k as int] == data@[i + k]);
            }
            return None;
        }
        k += 1;
    }
    proof {
        assert(data@.subrange(i as int, i + lit@.len() as int) =~= lit@);
    }
    Some(i + lit.len())
}

/// Scan a string body at position `i` of `data`.
pub fn parse_string_at(data: &Vec<u8>, i: usize) -> (r: Option<(Vec<u8>, usize)>)
    ensures
        match r {
            Some((s, j)) => scan_string(data@, i as int) == Some((s@, j as int)) && i < j
                <= data@.len(),
            None => scan_string(data@, i as int) is None,
        },
    decreases data@.len() - i,
{
    if i >= data.len() {
        return None;
    }
    let b = data[i];
    if b == QUOTE {
        let empty: Vec<u8> = Vec::new();
        proof {
            assert(empty@ =~= Seq::<u8>::empty());
        }
        Some((empty, i + 1))
    } else if b == BACKSLASH {
        if i + 1 < data.len() && (data[i + 1] == QUOTE || data[i + 1] == BACKSLASH) {
            match parse_string_at(data, i + 2) {
                None => None,
                Some((s, j)) => {
                    let ghost sv = s@;
                    let mut v: Vec<u8> = Vec::new();
                    v.push(data[i + 1]);
                    let mut rest = s;
                    v.append(&mut rest);
                    proof {
                        assert(v@ =~= seq![data@[i + 1]] + sv);
                    }
                    Some((v, j))
                },
            }
        } else {
            None
        }
    } else {
        match parse_string_at(data, i + 1) {
            None => None,
            Some((s, j)) => {
                let ghost sv = s@;
                let mut v: Vec<u8> = Vec::new();
                v.push(b);
                let mut rest = s;
                v.append(&mut rest);
                proof {
                    assert(v@ =~= seq![data@[i as int]] + sv);
                }
                Some((v, j))
            },
        }
    }
}

/// Scan a quoted field value at position `i` of `data`.
pub fn parse_quoted_at(data: &Vec<u8>, i: usize) -> (r: Option<(Vec<u8>, usize)>)
    ensures
        match r {
            Some((s, j)) => scan_quoted(data@, i as int) == Some((s@, j as int)) && i < j
                <= data@.len(),
            None => scan_quoted(data@, i as int) is None,
        },
{
    if i < data.len() && data[i] == QUOTE {
        parse_string_at(data, i + 1)
    } else {
        None
    }
}

/// Decode a config record: the token it holds, or nothing where the bytes
/// are not exactly such a record.
pub fn decode_config(data: &Vec<u8>) -> (r: Option<Vec<u8>>)
    ensures
        match r {
            Some(t) => parse_config(data@) == Some(t@),
            None => parse_config(data@) is None,
        },
{
    let open_lit: Vec<u8> = vec![123u8, 34, 116, 111, 107, 101, 110, 34, 58];
    proof {
        assert(open_lit@ =~= lit_token_open());
    }
    let j = match expect_lit(data, 0, &open_lit) {
        Some(j) => j,
        None => {
            return None;
        },
    };
    let (token, k) = match parse_quoted_at(data, j) {
        Some(p) => p,
        None => {
            return None;
        },
    };
    if data.len() > 0 && k == data.len() - 1 && data[k] == RBRACE {
        Some(token)
    } else {
        None
    }
}


/// `{"id":`
pub open spec fn lit_id() -> Seq<u8> {
    seq![123u8, 34, 105, 100, 34, 58]
}

/// `,"updated_at":`
pub open spec fn lit_updated() -> Seq<u8> {
    seq![44u8, 34, 117, 112, 100, 97, 116, 101, 100, 95, 97, 116, 34, 58]
}

/// `,"title":`
pub open spec fn lit_title() -> Seq<u8> {
    seq![44u8, 34, 116, 105, 116, 108, 101, 34, 58]
}

/// `,"type":`
pub open spec fn lit_type() -> Seq<u8> {
    seq![44u8, 34, 116, 121, 112, 101, 34, 58]
}

/// `,"url":`
pub open spec fn lit_url() -> Seq<u8> {
    seq![44u8, 34, 117, 114, 108, 34, 58]
}

/// `,"repository":`
pub open spec fn lit_repo() -> Seq<u8> {
    seq![44u8, 34, 114, 101, 112, 111, 115, 105, 116, 111, 114, 121, 34, 58]
}

/// `{"list":[`
pub open spec fn lit_list_open() -> Seq<u8> {
    seq![123u8, 34, 108, 105, 115, 116, 34, 58, 91]
}

/// One encoded notification: a flat object of its six textual fields.
pub open spec fn notif_bytes(n: NotificationView) -> Seq<u8> {
    lit_id() + quoted(n.id) + lit_updated() + quoted(n.updated_at) + lit_title() + quoted(
        n.subject.title,
    ) + lit_type() + quoted(n.subject.subject_type) + lit_url() + quoted(n.subject.url)
        + lit_repo() + quoted(n.repository.name) + seq![RBRACE]
}

/// One or more encoded notifications, separated by commas.
pub open spec fn items_bytes(l: Seq<NotificationView>) -> Seq<u8>
    recommends
        l.len() >= 1,
    decreases l.len(),
{
    if l.len() <= 1 {
        notif_bytes(l.last())
    } else {
        items_bytes(l.drop_last()) + seq![COMMA] + notif_bytes(l.last())
    }
}

/// The list part of the cache record: empty, or the joined items.
pub open spec fn list_payload(l: Seq<NotificationView>) -> Seq<u8> {
    if l.len() == 0 {
        Seq::empty()
    } else {
        items_bytes(l)
    }
}

/// The encoded cache record holding the persisted set.
pub open spec fn cache_bytes(l: Seq<NotificationView>) -> Seq<u8> {
    lit_list_open() + list_payload(l) + seq![RBRACKET, RBRACE]
}

/// One notification object starting at `i`; `None` where none stands
/// there.
#[verifier::opaque]
pub open spec fn parse_notification(data: Seq<u8>, i: int) -> Option<(NotificationView, int)> {
    match eat_lit(data, i, lit_id()) {
        None => None,
        Some(j1) => match scan_quoted(data, j1) {
            None => None,
            Some((id, j2)) => match eat_lit(data, j2, lit_updated()) {
                None => None,
                Some(j3) => match scan_quoted(data, j3) {
                    None => None,
                    Some((updated_at, j4)) => match eat_lit(data, j4, lit_title()) {
                        None => None,
                        Some(j5) => match scan_quoted(data, j5) {
                            None => None,
                            Some((title, j6)) => match eat_lit(data, j6, lit_type()) {
                                None => None,
                                Some(j7) => match scan_quoted(data, j7) {
                                    None => None,
                                    Some((subject_type, j8)) => match eat_lit(data, j8, lit_url()) {
                                        None => None,
                                        Some(j9) => match scan_quoted(data, j9) {
                                            None => None,
                                            Some((url, j10)) => match eat_lit(
                                                data,
                                                j10,
                                                lit_repo(),
                                            ) {
                                                None => None,
                                                Some(j11) => match scan_quoted(data, j11) {
                                                    None => None,
                                                    Some((name, j12)) => match eat_lit(
                                                        data,
                                                        j12,
                                                        seq![RBRACE],
                                                    ) {
                                                        None => None,
                                                        Some(j13) => Some(
                                                            (
                                                                NotificationView {
                                                                    id,
                                                                    updated_at,
                                                                    subject: SubjectView {
                                                                        title,
                                                                        subject_type,
                                                                        url,
                                                                    },
                                                                    repository: RepositoryView {
                                                                        name,
                                                                    },
                                                                },
                                                                j13,
                                                            ),
                                                        ),
                                                    },
                                                },
                                            },
                                        },
                                    },
                                },
                            },
                        },
                    },
                },
            },
        },
    }
}

/// One or more notification objects separated by commas, starting at `i`
/// and extending as long as a comma follows.
#[verifier::opaque]
pub open spec fn parse_items(data: Seq<u8>, i: int) -> Option<(Seq<NotificationView>, int)>
    decreases data.len() - i,
{
    match parse_notification(data, i) {
        None => None,
        Some((n, j)) => if j <= i || j > data.len() {
            None
        } else if j < data.len() && data[j] == COMMA {
            match parse_items(data, j + 1) {
                None => None,
                Some((l, k)) => Some((seq![n] + l, k)),
            }
        } else {
            Some((seq![n], j))
        },
    }
}

/// What a cache record holds: the notification list of `{"list":[...]}`,
/// or nothing where the bytes are not exactly such a record.
pub open spec fn parse_cache(data: Seq<u8>) -> Option<Seq<NotificationView>> {
    match eat_lit(data, 0, lit_list_open()) {
        None => None,
        Some(j) => if j < data.len() && data[j] == RBRACKET {
            if j + 2 == data.len() && data[j + 1] == RBRACE {
                Some(Seq::empty())
            } else {
                None
            }
        } else {
            match parse_items(data, j) {
                None => None,
                Some((l, k)) => if k + 2 == data.len() && 0 <= k && data[k] == RBRACKET && data[k
                    + 1] == RBRACE {
                    Some(l)
                } else {
                    None
                },
            }
        },
    }
}


/// Joined items decompose at the front: the first object, then a comma
/// and the rest where more than one item is present.
pub proof fn lemma_items_head(l: Seq<NotificationView>)
    requires
        l.len() >= 1,
    ensures
        items_bytes(l) == notif_bytes(l[0]) + (if l.len() == 1 {
            Seq::<u8>::empty()
        } else {
            seq![COMMA] + items_bytes(l.skip(1))
        }),
    decreases l.len(),
{
    if l.len() == 1 {
        assert(l.last() == l[0]);
        assert(items_bytes(l) =~= notif_bytes(l[0]) + Seq::<u8>::empty());
    } else {
        let dl = l.drop_last();
        lemma_items_head(dl);
        assert(dl[0] == l[0]);
        if l.len() == 2 {
            assert(l.skip(1).len() == 1);
            assert(l.skip(1).last() == l.last());
            assert(items_bytes(l.skip(1)) == notif_bytes(l.last()));
            assert(items_bytes(dl) == notif_bytes(l[0]) + Seq::<u8>::empty());
            assert(items_bytes(l) =~= notif_bytes(l[0]) + (seq![COMMA] + items_bytes(l.skip(1))));
        } else {
            assert(l.skip(1).len() >= 2);
            assert(l.skip(1).drop_last() =~= dl.skip(1));
            assert(l.skip(1).last() == l.last());
            assert(items_bytes(l.skip(1)) == items_bytes(dl.skip(1)) + seq![COMMA] + notif_bytes(
                l.last(),
            ));
            assert(items_bytes(dl) == notif_bytes(l[0]) + (seq![COMMA] + items_bytes(dl.skip(1))));
            assert(items_bytes(l) =~= notif_bytes(l[0]) + (seq![COMMA] + items_bytes(l.skip(1))));
        }
    }
}

/// Peel one encoded notification off the front of a known suffix of the
/// data.
#[verifier::rlimit(100)]
#[verifier::spinoff_prover]
pub proof fn lemma_parse_notification_of(data: Seq<u8>, i: int, n: NotificationView, rest: Seq<u8>)
    requires
        0 <= i <= data.len(),
        data.subrange(i, data.len() as int) == notif_bytes(n) + rest,
    ensures
        parse_notification(data, i) == Some((n, i + notif_bytes(n).len())),
        data.subrange(i + notif_bytes(n).len(), data.len() as int) == rest,
        i < i + notif_bytes(n).len() <= data.len(),
        data[i] == 123,
{
    reveal(parse_notification);
    let r12 = seq![RBRACE] + rest;
    let r11 = quoted(n.repository.name) + r12;
    let r10 = lit_repo() + r11;
    let r9 = quoted(n.subject.url) + r10;
    let r8 = lit_url() + r9;
    let r7 = quoted(n.subject.subject_type) + r8;
    let r6 = lit_type() + r7;
    let r5 = quoted(n.subject.title) + r6;
    let r4 = lit_title() + r5;
    let r3 = quoted(n.updated_at) + r4;
    let r2 = lit_updated() + r3;
    let r1 = quoted(n.id) + r2;
    assert(notif_bytes(n) + rest =~= lit_id() + r1);
    lemma_peel_lit(data, i, lit_id(), r1);
    let o1 = i + lit_id().len() as int;
    lemma_peel_quoted(data, o1, n.id, r2);
    let o2 = o1 + quoted(n.id).len() as int;
    lemma_peel_lit(data, o2, lit_updated(), r3);
    let o3 = o2 + lit_updated().len() as int;
    lemma_peel_quoted(data, o3, n.updated_at, r4);
    let o4 = o3 + quoted(n.updated_at).len() as int;
    lemma_peel_lit(data, o4, lit_title(), r5);
    let o5 = o4 + lit_title().len() as int;
    lemma_peel_quoted(data, o5, n.subject.title, r6);
    let o6 = o5 + quoted(n.subject.title).len() as int;
    lemma_peel_lit(data, o6, lit_type(), r7);
    let o7 = o6 + lit_type().len() as int;
    lemma_peel_quoted(data, o7, n.subject.subject_type, r8);
    let o8 = o7 + quoted(n.subject.subject_type).len() as int;
    lemma_peel_lit(data, o8, lit_url(), r9);
    let o9 = o8 + lit_url().len() as int;
    lemma_peel_quoted(data, o9, n.subject.url, r10);
    let o10 = o9 + quoted(n.subject.url).len() as int;
    lemma_peel_lit(data, o10, lit_repo(), r11);
    let o11 = o10 + lit_repo().len() as int;
    lemma_peel_quoted(data, o11, n.repository.name, r12);
    let o12 = o11 + quoted(n.repository.name).len() as int;
    lemma_peel_lit(data, o12, seq![RBRACE], rest);
    let o13 = o12 + 1;
    assert(NotificationView {
        id: n.id,
        updated_at: n.updated_at,
        subject: SubjectView {
            title: n.subject.title,
            subject_type: n.subject.subject_type,
            url: n.subject.url,
        },
        repository: RepositoryView { name: n.repository.name },
    } =~= n);
    assert(parse_notification(data, i) == Some((n, o13)));
    assert(notif_bytes(n).len() == lit_id().len() + quoted(n.id).len() + lit_updated().len()
        + quoted(n.updated_at).len() + lit_title().len() + quoted(n.subject.title).len()
        + lit_type().len() + quoted(n.subject.subject_type).len() + lit_url().len() + quoted(
        n.subject.url,
    ).len() + lit_repo().len() + quoted(n.repository.name).len() + 1);
    assert(o13 == i + notif_bytes(n).len());
    assert(lit_at(data, i, lit_id()));
    assert(data[i + 0] == lit_id()[0]) by {
        assert(data.subrange(i, i + lit_id().len() as int)[0] == data[i + 0]);
    }
}

/// Peel a run of comma-joined encoded notifications off the front of a
/// known suffix of the data, provided no comma follows the run.
#[verifier::rlimit(100)]
#[verifier::spinoff_prover]
pub proof fn lemma_parse_items_of(
    data: Seq<u8>,
    i: int,
    l: Seq<NotificationView>,
    rest: Seq<u8>,
)
    requires
        l.len() >= 1,
        0 <= i <= data.len(),
        data.subrange(i, data.len() as int) == items_bytes(l) + rest,
        rest.len() == 0 || rest[0] != COMMA,
    ensures
        parse_items(data, i) == Some((l, i + items_bytes(l).len())),
        data.subrange(i + items_bytes(l).len(), data.len() as int) == rest,
        i + items_bytes(l).len() <= data.len(),
        data[i] == 123,
    decreases l.len(),
{
    reveal(parse_items);
    lemma_items_head(l);
    if l.len() == 1 {
        assert(items_bytes(l) + rest =~= notif_bytes(l[0]) + rest);
        lemma_parse_notification_of(data, i, l[0], rest);
        let j = i + notif_bytes(l[0]).len() as int;
        if j < data.len() {
            assert(data.subrange(j, data.len() as int).len() == rest.len());
            assert(data[j + 0] == rest[0]) by {
                assert(data.subrange(j, data.len() as int)[0] == data[j + 0]);
            }
            assert(data[j] != COMMA);
        }
        assert(seq![l[0]] =~= l);
        assert(items_bytes(l).len() == notif_bytes(l[0]).len());
    } else {
        let tail_items = items_bytes(l.skip(1));
        let mid = seq![COMMA] + (tail_items + rest);
        assert(items_bytes(l) + rest =~= notif_bytes(l[0]) + mid);
        lemma_parse_notification_of(data, i, l[0], mid);
        let j = i + notif_bytes(l[0]).len() as int;
        assert(data[j + 0] == mid[0]) by {
            assert(data.subrange(j, data.len() as int)[0] == data[j + 0]);
            assert(data.subrange(j, data.len() as int).len() == mid.len());
        }
        assert(mid[0] == COMMA) by {
            assert((seq![COMMA] + (tail_items + rest))[0] == seq![COMMA][0]);
        }
        assert(j < data.len()) by {
            assert(data.subrange(j, data.len() as int).len() == mid.len());
            assert(mid.len() >= 1);
        }
        lemma_peel_lit(data, j, seq![COMMA], tail_items + rest);
        assert(l.skip(1).len() >= 1);
        lemma_parse_items_of(data, j + 1, l.skip(1), rest);
        assert(seq![l[0]] + l.skip(1) =~= l);
        assert(items_bytes(l).len() == notif_bytes(l[0]).len() + 1 + items_bytes(l.skip(1)).len())
            by {
            assert(items_bytes(l) == notif_bytes(l[0]) + (seq![COMMA] + items_bytes(l.skip(1))));
            assert((notif_bytes(l[0]) + (seq![COMMA] + items_bytes(l.skip(1)))).len()
                == notif_bytes(l[0]).len() + (seq![COMMA] + items_bytes(l.skip(1))).len());
            assert((seq![COMMA] + items_bytes(l.skip(1))).len() == 1 + items_bytes(
                l.skip(1),
            ).len());
        }
        assert(parse_items(data, i) == Some((l, i + items_bytes(l).len())));
    }
}

/// A three-part concatenation, taken whole, splits after its first part.
pub proof fn lemma_suffix_whole(a: Seq<u8>, b: Seq<u8>, c: Seq<u8>)
    ensures
        (a + b + c).subrange(0, (a + b + c).len() as int) == a + (b + c),
{
    assert((a + b + c).subrange(0, (a + b + c).len() as int) =~= a + (b + c));
}

/// Cache round trip: an encoded notification list parses back to exactly
/// that list.
#[verifier::rlimit(100)]
#[verifier::spinoff_prover]
pub proof fn lemma_cache_round_trip(l: Seq<NotificationView>)
    ensures
        parse_cache(cache_bytes(l)) == Some(l),
{
    let data = cache_bytes(l);
    let close = seq![RBRACKET, RBRACE];
    lemma_suffix_whole(lit_list_open(), list_payload(l), close);
    lemma_peel_lit(data, 0, lit_list_open(), list_payload(l) + close);
    let j = lit_list_open().len() as int;
    if l.len() == 0 {
        assert(list_payload(l) == Seq::<u8>::empty());
        assert(Seq::<u8>::empty() + close =~= close);
        assert(data.subrange(j, data.len() as int) == close);
        assert(data.subrange(j, data.len() as int).len() == close.len());
        assert(data[j + 0] == close[0]) by {
            assert(data.subrange(j, data.len() as int)[0] == data[j + 0]);
        }
        assert(data[j + 1] == close[1]) by {
            assert(data.subrange(j, data.len() as int)[1] == data[j + 1]);
        }
        assert(j + 2 == data.len());
        assert(Seq::<NotificationView>::empty() =~= l);
    } else {
        assert(list_payload(l) == items_bytes(l));
        lemma_parse_items_of(data, j, l, close);
        let k = j + items_bytes(l).len() as int;
        assert(data.subrange(k, data.len() as int).len() == close.len());
        assert(data[k + 0] == close[0]) by {
            assert(data.subrange(k, data.len() as int)[0] == data[k + 0]);
        }
        assert(data[k + 1] == close[1]) by {
            assert(data.subrange(k, data.len() as int)[1] == data[k + 1]);
        }
        assert(k + 2 == data.len());
        assert(data[j] == 123);
        assert(data[j] != RBRACKET);
    }
}


/// Encode one notification as a flat object of its six textual fields.
pub fn encode_notification(n: &Notification) -> (r: Vec<u8>)
    ensures
        r@ == notif_bytes(n@),
{
    let mut out: Vec<u8> = Vec::new();
    let l_id: Vec<u8> = vec![123u8, 34, 105, 100, 34, 58];
    proof {
        assert(l_id@ =~= lit_id());
    }
    push_bytes(&mut out, &l_id);
    push_quoted(&mut out, &n.id);
    let l_upd: Vec<u8> = vec![44u8, 34, 117, 112, 100, 97, 116, 101, 100, 95, 97, 116, 34, 58];
    proof {
        assert(l_upd@ =~= lit_updated());
    }
    push_bytes(&mut out, &l_upd);
    push_quoted(&mut out, &n.updated_at);
    let l_title: Vec<u8> = vec![44u8, 34, 116, 105, 116, 108, 101, 34, 58];
    proof {
        assert(l_title@ =~= lit_title());
    }
    push_bytes(&mut out, &l_title);
    push_quoted(&mut out, &n.subject.title);
    let l_type: Vec<u8> = vec![44u8, 34, 116, 121, 112, 101, 34, 58];
    proof {
        assert(l_type@ =~= lit_type());
    }
    push_bytes(&mut out, &l_type);
    push_quoted(&mut out, &n.subject.subject_type);
    let l_url: Vec<u8> = vec![44u8, 34, 117, 114, 108, 34, 58];
    proof {
        assert(l_url@ =~= lit_url());
    }
    push_bytes(&mut out, &l_url);
    push_quoted(&mut out, &n.subject.url);
    let l_repo: Vec<u8> = vec![44u8, 34, 114, 101, 112, 111, 115, 105, 116, 111, 114, 121, 34, 58];
    proof {
        assert(l_repo@ =~= lit_repo());
    }
    push_bytes(&mut out, &l_repo);
    push_quoted(&mut out, &n.repository.name);
    out.push(RBRACE);
    proof {
        assert(out@ =~= notif_bytes(n@));
    }
    out
}

/// Encode the cache record holding the persisted set.
pub fn encode_notifications(batch: &Notifications) -> (r: Vec<u8>)
    ensures
        r@ == cache_bytes(batch@),
{
    let ghost bv = batch@;
    let mut out: Vec<u8> = Vec::new();
    let open_lit: Vec<u8> = vec![123u8, 34, 108, 105, 115, 116, 34, 58, 91];
    proof {
        assert(open_lit@ =~= lit_list_open());
    }
    push_bytes(&mut out, &open_lit);
    let mut i: usize = 0;
    while i < batch.list.len()
        invariant
            i <= batch.list.len(),
            bv == batch@,
            bv.len() == batch.list.len(),
            out@ == lit_list_open() + list_payload(bv.take(i as int)),
        decreases batch.list.len() - i,
    {
        proof {
            assert(bv.take(i + 1).drop_last() =~= bv.take(i as int));
            assert(bv.take(i + 1).last() == bv[i as int]);
            assert(bv[i as int] == batch.list@[i as int]@);
        }
        if i > 0 {
            out.push(COMMA);
        }
        let nb = encode_notification(&batch.list[i]);
        push_bytes(&mut out, &nb);
        proof {
            if i == 0 {
                assert(out@ =~= lit_list_open() + list_payload(bv.take(1)));
            } else {
                assert(out@ =~= lit_list_open() + list_payload(bv.take(i + 1)));
            }
        }
        i += 1;
    }
    proof {
        assert(bv.take(batch.list.len() as int) =~= bv);
    }
    out.push(RBRACKET);
    out.push(RBRACE);
    proof {
        assert(out@ =~= cache_bytes(bv));
    }
    out
}

/// Parse one notification object at position `i` of `data`.
pub fn parse_notification_at(data: &Vec<u8>, i: usize) -> (r: Option<(Notification, usize)>)
    ensures
        match r {
            Some((n, j)) => parse_notification(data@, i as int) == Some((n@, j as int)) && i < j
                <= data@.len(),
            None => parse_notification(data@, i as int) is None,
        },
{
    proof {
        reveal(parse_notification);
    }
    let l_id: Vec<u8> = vec![123u8, 34, 105, 100, 34, 58];
    proof {
        assert(l_id@ =~= lit_id());
    }
    let j1 = match expect_lit(data, i, &l_id) {
        Some(j) => j,
        None => {
            return None;
        },
    };
    let (id, j2) = match parse_quoted_at(data, j1) {
        Some(p) => p,
        None => {
            return None;
        },
    };
    let l_upd: Vec<u8> = vec![44u8, 34, 117, 112, 100, 97, 116, 101, 100, 95, 97, 116, 34, 58];
    proof {
        assert(l_upd@ =~= lit_updated());
    }
    let j3 = match expect_lit(data, j2, &l_upd) {
        Some(j) => j,
        None => {
            return None;
        },
    };
    let (updated_at, j4) = match parse_quoted_at(data, j3) {
        Some(p) => p,
        None => {
            return None;
        },
    };
    let l_title: Vec<u8> = vec![44u8, 34, 116, 105, 116, 108, 101, 34, 58];
    proof {
        assert(l_title@ =~= lit_title());
    }
    let j5 = match expect_lit(data, j4, &l_title) {
        Some(j) => j,
        None => {
            return None;
        },
    };
    let (title, j6) = match parse_quoted_at(data, j5) {
        Some(p) => p,
        None => {
            return None;
        },
    };
    let l_type: Vec<u8> = vec![44u8, 34, 116, 121, 112, 101, 34, 58];
    proof {
        assert(l_type@ =~= lit_type());
    }
    let j7 = match expect_lit(data, j6, &l_type) {
        Some(j) => j,
        None => {
            return None;
        },
    };
    let (subject_type, j8) = match parse_quoted_at(data, j7) {
        Some(p) => p,
        None => {
            return None;
        },
    };
    let l_url: Vec<u8> = vec![44u8, 34, 117, 114, 108, 34, 58];
    proof {
        assert(l_url@ =~= lit_url());
    }
    let j9 = match expect_lit(data, j8, &l_url) {
        Some(j) => j,
        None => {
            return None;
        },
    };
    let (url, j10) = match parse_quoted_at(data, j9) {
        Some(p) => p,
        None => {
            return None;
        },
    };
    let l_repo: Vec<u8> = vec![
        44u8, 34, 114, 101, 112, 111, 115, 105, 116, 111, 114, 121, 34, 58,
    ];
    proof {
        assert(l_repo@ =~= lit_repo());
    }
    let j11 = match expect_lit(data, j10, &l_repo) {
        Some(j) => j,
        None => {
            return None;
        },
    };
    let (name, j12) = match parse_quoted_at(data, j11) {
        Some(p) => p,
        None => {
            return None;
        },
    };
    let l_close: Vec<u8> = vec![125u8];
    proof {
        assert(l_close@ =~= seq![RBRACE]);
    }
    let j13 = match expect_lit(data, j12, &l_close) {
        Some(j) => j,
        None => {
            return None;
        },
    };
    let n = Notification {
        id,
        updated_at,
        subject: Subject { title, subject_type, url },
        repository: Repository { name },
    };
    Some((n, j13))
}

/// Parse a comma-joined run of notification objects at position `i`.
pub fn parse_items_at(data: &Vec<u8>, i: usize) -> (r: Option<(Vec<Notification>, usize)>)
    ensures
        match r {
            Some((l, k)) => parse_items(data@, i as int) == Some(
                (l@.map_values(|x: Notification| x@), k as int),
            ) && i < k <= data@.len(),
            None => parse_items(data@, i as int) is None,
        },
    decreases data@.len() - i,
{
    proof {
        reveal(parse_items);
    }
    let (n, j) = match parse_notification_at(data, i) {
        Some(p) => p,
        None => {
            return None;
        },
    };
    let ghost gn = n;
    if j < data.len() && data[j] == COMMA {
        match parse_items_at(data, j + 1) {
            None => None,
            Some((l, k)) => {
                let ghost lv = l@;
                let mut out: Vec<Notification> = Vec::new();
                out.push(n);
                let mut rest = l;
                out.append(&mut rest);
                proof {
                    let f = |x: Notification| x@;
                    assert(out@.len() == 1 + lv.len());
                    assert forall|m: int| 0 <= m < out@.map_values(f).len() implies out@.map_values(
                        f,
                    )[m] == (seq![gn@] + lv.map_values(f))[m] by {
                        if m == 0 {
                            assert(out@[0] == gn);
                        } else {
                            assert(out@[m] == lv[m - 1]);
                            assert(lv.map_values(f)[m - 1] == f(lv[m - 1]));
                        }
                    }
                    assert(out@.map_values(f) =~= seq![gn@] + lv.map_values(f));
                }
                Some((out, k))
            },
        }
    } else {
        let mut out: Vec<Notification> = Vec::new();
        out.push(n);
        proof {
            assert(out@.map_values(|x: Notification| x@) =~= seq![gn@]);
        }
        Some((out, j))
    }
}

/// Decode a cache record: the persisted set it holds, or nothing where
/// the bytes are not exactly such a record.
pub fn decode_notifications(data: &Vec<u8>) -> (r: Option<Notifications>)
    ensures
        match r {
            Some(ns) => parse_cache(data@) == Some(ns@),
            None => parse_cache(data@) is None,
        },
{
    let open_lit: Vec<u8> = vec![123u8, 34, 108, 105, 115, 116, 34, 58, 91];
    proof {
        assert(open_lit@ =~= lit_list_open());
    }
    let j = match expect_lit(data, 0, &open_lit) {
        Some(j) => j,
        None => {
            return None;
        },
    };
    if j < data.len() && data[j] == RBRACKET {
        if data.len() - j == 2 && data[j + 1] == RBRACE {
            let ns = Notifications { list: Vec::new() };
            proof {
                assert(ns@ =~= Seq::<NotificationView>::empty());
            }
            Some(ns)
        } else {
            None
        }
    } else {
        let (l, k) = match parse_items_at(data, j) {
            Some(p) => p,
            None => {
                return None;
            },
        };
        if data.len() - k == 2 && data[k] == RBRACKET && data[k + 1] == RBRACE {
            Some(Notifications { list: l })
        } else {
            None
        }
    }
}

} // verus!
