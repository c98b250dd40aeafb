//! What the poller reads out of a remote collaborator's text: a string
//! field of a JSON object, the top-level objects of a JSON array body, the
//! value of a query parameter in a redirect request, and a run of decimal
//! digits. The transport that obtains the text stays with the caller; the
//! extraction is verified here.

use vstd::prelude::*;

use crate::codec::BACKSLASH;
use crate::codec::QUOTE;
use crate::codec::expect_lit;
use crate::codec::push_bytes;

verus! {

/// `{`
pub const LBRACE: u8 = 123;

/// `}`
pub const CLOSE_BRACE: u8 = 125;

/// The position just past the first stand of `marker` at or after `i`;
/// `None` where the marker does not occur.
pub open spec fn find_after(data: Seq<u8>, marker: Seq<u8>, i: int) -> Option<int>
    decreases data.len() - i,
{
    if i < 0 || marker.len() == 0 || i + marker.len() > data.len() {
        None
    } else if data.subrange(i, i + marker.len() as int) == marker {
        Some(i + marker.len() as int)
    } else {
        find_after(data, marker, i + 1)
    }
}

/// Find the first stand of `marker` at or after `from`, and return the
/// position just past it.
pub fn find_marker(data: &Vec<u8>, marker: &Vec<u8>, from: usize) -> (r: Option<usize>)
    ensures
        match r {
            Some(j) => find_after(data@, marker@, from as int) == Some(j as int) && j
                <= data@.len(),
            None => find_after(data@, marker@, from as int) is None,
        },
{
    if marker.len() == 0 || marker.len() > data.len() {
        return None;
    }
    let mut i: usize = from;
    while i <= data.len() - marker.len()
        invariant
            1 <= marker@.len() <= data@.len(),
            find_after(data@, marker@, from as int) == find_after(data@, marker@, i as int),
        decreases data.len() - i,
    {
        match expect_lit(data, i, marker) {
            Some(j) => {
                return Some(j);
            },
            None => {
                i += 1;
            },
        }
    }
    None
}

/// Whether `marker` occurs anywhere in `data`.
pub fn contains_marker(data: &Vec<u8>, marker: &Vec<u8>) -> (r: bool)
    ensures
        r == (find_after(data@, marker@, 0) is Some),
{
    match find_marker(data, marker, 0) {
        Some(_) => true,
        None => false,
    }
}

/// What one escape of a JSON string stands for. Quote, backslash, slash,
/// newline and tab are decoded; any other escape is kept verbatim.
pub open spec fn json_escape_decoded(c: u8) -> Seq<u8> {
    if c == QUOTE {
        seq![QUOTE]
    } else if c == BACKSLASH {
        seq![BACKSLASH]
    } else if c == 47 {
        seq![47u8]
    } else if c == 110 {
        seq![10u8]
    } else if c == 116 {
        seq![9u8]
    } else {
        seq![BACKSLASH, c]
    }
}

/// The body of a JSON string from position `i` up to and past its closing
/// quote, with escapes decoded; `None` where the string never closes.
pub open spec fn scan_json_string(data: Seq<u8>, i: int) -> Option<(Seq<u8>, int)>
    decreases data.len() - i,
{
    if i < 0 || i >= data.len() {
        None
    } else if data[i] == QUOTE {
        Some((Seq::empty(), i + 1))
    } else if data[i] == BACKSLASH {
        if i + 1 < data.len() {
            match scan_json_string(data, i + 2) {
                None => None,
                Some((s, j)) => Some((json_escape_decoded(data[i + 1]) + s, j)),
            }
        } else {
            None
        }
    } else {
        match scan_json_string(data, i + 1) {
            None => None,
            Some((s, j)) => Some((seq![data[i]] + s, j)),
        }
    }
}

/// Scan the body of a JSON string at position `i` of `data`.
pub fn parse_json_string_at(data: &Vec<u8>, i: usize) -> (r: Option<(Vec<u8>, usize)>)
    ensures
        match r {
            Some((s, j)) => scan_json_string(data@, i as int) == Some((s@, j as int)) && i < j
                <= data@.len(),
            None => scan_json_string(data@, i as int) is None,
        },
    decreases data@.len() - i,
{
    if i >= data.len() {
        return None;
    }
    let b = data[i];
    if b == QUOTE {
        let empty: Vec<u8> = Vec::new();
        proof {
            assert(empty@ =~= Seq::<u8>::empty());
        }
        Some((empty, i + 1))
    } else if b == BACKSLASH {
        if i + 1 < data.len() {
            match parse_json_string_at(data, i + 2) {
                None => None,
                Some((s, j)) => {
                    let ghost sv = s@;
                    let c = data[i + 1];
                    let mut v: Vec<u8> = Vec::new();
                    if c == QUOTE {
                        v.push(QUOTE);
                    } else if c == BACKSLASH {
                        v.push(BACKSLASH);
                    } else if c == 47 {
                        v.push(47);
                    } else if c == 110 {
                        v.push(10);
                    } else if c == 116 {
                        v.push(9);
                    } else {
                        v.push(BACKSLASH);
                        v.push(c);
                    }
                    proof {
                        assert(v@ =~= json_escape_decoded(data@[i + 1]));
                    }
                    let mut rest = s;
                    v.append(&mut rest);
                    proof {
                        assert(v@ =~= json_escape_decoded(data@[i + 1]) + sv);
                    }
                    Some((v, j))
                },
            }
        } else {
            None
        }
    } else {
        match parse_json_string_at(data, i + 1) {
            None => None,
            Some((s, j)) => {
                let ghost sv = s@;
                let mut v: Vec<u8> = Vec::new();
                v.push(b);
                let mut rest = s;
                v.append(&mut rest);
                proof {
                    assert(v@ =~= seq![data@[i as int]] + sv);
                }
                Some((v, j))
            },
        }
    }
}

/// `"key":"` — where a string field's value begins.
pub open spec fn field_marker(key: Seq<u8>) -> Seq<u8> {
    seq![QUOTE] + key + seq![QUOTE, 58u8, QUOTE]
}

/// The value of the first string field named `key`: the text between the
/// quotes after the first `"key":"`, with escapes decoded; `None` where no
/// such field stands in `data`.
pub open spec fn json_field_of(data: Seq<u8>, key: Seq<u8>) -> Option<Seq<u8>> {
    match find_after(data, field_marker(key), 0) {
        None => None,
        Some(j) => match scan_json_string(data, j) {
            None => None,
            Some((s, _)) => Some(s),
        },
    }
}

/// Extract the value of the first string field named `key`.
pub fn json_field(data: &Vec<u8>, key: &Vec<u8>) -> (r: Option<Vec<u8>>)
    ensures
        match r {
            Some(v) => json_field_of(data@, key@) == Some(v@),
            None => json_field_of(data@, key@) is None,
        },
{
    let mut marker: Vec<u8> = Vec::new();
    marker.push(QUOTE);
    push_bytes(&mut marker, key);
    marker.push(QUOTE);
    marker.push(58);
    marker.push(QUOTE);
    proof {
        assert(marker@ =~= field_marker(key@));
    }
    let j = match find_marker(data, &marker, 0) {
        Some(j) => j,
        None => {
            return None;
        },
    };
    match parse_json_string_at(data, j) {
        Some((s, _)) => Some(s),
        None => None,
    }
}

/// The top-level objects of a JSON array body, each kept verbatim: text
/// inside strings is carried through, braces open and close objects, and
/// bytes between objects are dropped. A close brace with no object open
/// ends the walk.
pub open spec fn split_objects_from(
    data: Seq<u8>,
    i: int,
    depth: nat,
    in_string: bool,
    escaped: bool,
    current: Seq<u8>,
    acc: Seq<Seq<u8>>,
) -> Seq<Seq<u8>>
    decreases data.len() - i,
{
    if i < 0 || i >= data.len() {
        acc
    } else {
        let c = data[i];
        if in_string {
            if escaped {
                split_objects_from(data, i + 1, depth, true, false, current.push(c), acc)
            } else if c == BACKSLASH {
                split_objects_from(data, i + 1, depth, true, true, current.push(c), acc)
            } else if c == QUOTE {
                split_objects_from(data, i + 1, depth, false, false, current.push(c), acc)
            } else {
                split_objects_from(data, i + 1, depth, true, false, current.push(c), acc)
            }
        } else if c == QUOTE {
            split_objects_from(data, i + 1, depth, true, false, current.push(c), acc)
        } else if c == LBRACE {
            split_objects_from(data, i + 1, depth + 1, false, false, current.push(c), acc)
        } else if c == CLOSE_BRACE {
            if depth == 0 {
                acc
            } else if depth == 1 {
                split_objects_from(
                    data,
                    i + 1,
                    0,
                    false,
                    false,
                    Seq::empty(),
                    acc.push(current.push(c)),
                )
            } else {
                split_objects_from(
                    data,
                    i + 1,
                    (depth - 1) as nat,
                    false,
                    false,
                    current.push(c),
                    acc,
                )
            }
        } else if depth > 0 {
            split_objects_from(data, i + 1, depth, false, false, current.push(c), acc)
        } else {
            split_objects_from(data, i + 1, depth, false, false, current, acc)
        }
    }
}

/// The top-level objects of a JSON array body.
pub open spec fn objects_of(data: Seq<u8>) -> Seq<Seq<u8>> {
    split_objects_from(data, 0, 0, false, false, Seq::empty(), Seq::empty())
}

/// The byte strings a sequence of vectors holds.
pub open spec fn vec_views(s: Seq<Vec<u8>>) -> Seq<Seq<u8>> {
    s.map_values(|v: Vec<u8>| v@)
}

/// Split a JSON array body into its top-level objects.
pub fn split_objects(data: &Vec<u8>) -> (r: Vec<Vec<u8>>)
    ensures
        vec_views(r@) == objects_of(data@),
{
    let mut acc: Vec<Vec<u8>> = Vec::new();
    let mut current: Vec<u8> = Vec::new();
    let mut depth: usize = 0;
    let mut in_string = false;
    let mut escaped = false;
    let mut i: usize = 0;
    proof {
        assert(current@ =~= Seq::<u8>::empty());
        assert(vec_views(acc@) =~= Seq::<Seq<u8>>::empty());
    }
    while i < data.len()
        invariant
            i <= data.len(),
            depth <= i,
            in_string || !escaped,
            objects_of(data@) == split_objects_from(
                data@,
                i as int,
                depth as nat,
                in_string,
                escaped,
                current@,
                vec_views(acc@),
            ),
        decreases data.len() - i,
    {
        let ghost d0 = depth as nat;
        let ghost s0 = in_string;
        let ghost e0 = escaped;
        let ghost c0 = current@;
        let ghost a0 = vec_views(acc@);
        let c = data[i];
        if in_string {
            if escaped {
                escaped = false;
            } else if c == BACKSLASH {
                escaped = true;
            } else if c == QUOTE {
                in_string = false;
            }
            current.push(c);
            proof {
                assert(split_objects_from(data@, i as int, d0, s0, e0, c0, a0)
                    == split_objects_from(
                    data@,
                    i + 1,
                    depth as nat,
                    in_string,
                    escaped,
                    current@,
                    vec_views(acc@),
                ));
            }
        } else if c == QUOTE {
            in_string = true;
            current.push(c);
            proof {
                assert(split_objects_from(data@, i as int, d0, s0, e0, c0, a0)
                    == split_objects_from(
                    data@,
                    i + 1,
                    depth as nat,
                    in_string,
                    escaped,
                    current@,
                    vec_views(acc@),
                ));
            }
        } else if c == LBRACE {
            depth += 1;
            current.push(c);
            proof {
                assert(split_objects_from(data@, i as int, d0, s0, e0, c0, a0)
                    == split_objects_from(
                    data@,
                    i + 1,
                    depth as nat,
                    in_string,
                    escaped,
                    current@,
                    vec_views(acc@),
                ));
            }
        } else if c == CLOSE_BRACE {
            if depth == 0 {
                return acc;
            } else if depth == 1 {
                depth = 0;
                current.push(c);
                let ghost cv = current@;
                acc.push(current);
                current = Vec::new();
                proof {
                    assert(vec_views(acc@) =~= a0.push(cv));
                    assert(current@ =~= Seq::<u8>::empty());
                    assert(split_objects_from(data@, i as int, d0, s0, e0, c0, a0)
                        == split_objects_from(
                        data@,
                        i + 1,
                        depth as nat,
                        in_string,
                        escaped,
                        current@,
                        vec_views(acc@),
                    ));
                }
            } else {
                depth -= 1;
                current.push(c);
                proof {
                    assert(split_objects_from(data@, i as int, d0, s0, e0, c0, a0)
                        == split_objects_from(
                        data@,
                        i + 1,
                        depth as nat,
                        in_string,
                        escaped,
                        current@,
                        vec_views(acc@),
                    ));
                }
            }
        } else if depth > 0 {
            current.push(c);
            proof {
                assert(split_objects_from(data@, i as int, d0, s0, e0, c0, a0)
                    == split_objects_from(
                    data@,
                    i + 1,
                    depth as nat,
                    in_string,
                    escaped,
                    current@,
                    vec_views(acc@),
                ));
            }
        } else {
            proof {
                assert(split_objects_from(data@, i as int, d0, s0, e0, c0, a0)
                    == split_objects_from(
                    data@,
                    i + 1,
                    depth as nat,
                    in_string,
                    escaped,
                    current@,
                    vec_views(acc@),
                ));
            }
        }
        i += 1;
    }
    acc
}

/// A byte that ends the value of a query parameter: `&`, a space, or a
/// line break.
pub open spec fn is_param_end(c: u8) -> bool {
    c == 38 || c == 32 || c == 13 || c == 10
}

/// The bytes from `i` up to the first parameter-ending byte or the end of
/// the data.
pub open spec fn param_value_from(data: Seq<u8>, i: int) -> Seq<u8>
    decreases data.len() - i,
{
    if i < 0 || i >= data.len() || is_param_end(data[i]) {
        Seq::empty()
    } else {
        seq![data[i]] + param_value_from(data, i + 1)
    }
}

/// The value following the first stand of `marker` (such as `code=`), up
/// to the first `&`, space or line break; `None` where the marker does not
/// occur.
pub open spec fn query_param_of(data: Seq<u8>, marker: Seq<u8>) -> Option<Seq<u8>> {
    match find_after(data, marker, 0) {
        None => None,
        Some(j) => Some(param_value_from(data, j)),
    }
}

/// Extract the value following the first stand of `marker`.
pub fn query_param(data: &Vec<u8>, marker: &Vec<u8>) -> (r: Option<Vec<u8>>)
    ensures
        match r {
            Some(v) => query_param_of(data@, marker@) == Some(v@),
            None => query_param_of(data@, marker@) is None,
        },
{
    let j = match find_marker(data, marker, 0) {
        Some(j) => j,
        None => {
            return None;
        },
    };
    let mut out: Vec<u8> = Vec::new();
    let mut k: usize = j;
    proof {
        assert(out@ =~= Seq::<u8>::empty());
        assert(Seq::<u8>::empty() + param_value_from(data@, j as int) =~= param_value_from(
            data@,
            j as int,
        ));
    }
    while k < data.len() && !(data[k] == 38 || data[k] == 32 || data[k] == 13 || data[k] == 10)
        invariant
            j <= k <= data@.len(),
            out@ + param_value_from(data@, k as int) == param_value_from(data@, j as int),
        decreases data.len() - k,
    {
        proof {
            assert((out@ + seq![data@[k as int]]) + param_value_from(data@, k + 1) =~= out@ + (seq![
                data@[k as int],
            ] + param_value_from(data@, k + 1)));
        }
        out.push(data[k]);
        k += 1;
    }
    proof {
        assert(param_value_from(data@, k as int) =~= Seq::<u8>::empty());
        assert(out@ + param_value_from(data@, k as int) =~= out@);
    }
    Some(out)
}

/// A decimal digit.
pub open spec fn is_digit(c: u8) -> bool {
    48 <= c <= 57
}

/// The value of a run of decimal digits, most significant first.
pub open spec fn digits_val(s: Seq<u8>) -> int
    decreases s.len(),
{
    if s.len() == 0 {
        0
    } else {
        digits_val(s.drop_last()) * 10 + (s.last() as int - 48)
    }
}

/// Ten to the `k`.
pub open spec fn pow10(k: nat) -> nat
    decreases k,
{
    if k == 0 {
        1
    } else {
        10 * pow10((k - 1) as nat)
    }
}

/// A run of digits is worth less than ten to its length.
proof fn lemma_digits_val_bound(s: Seq<u8>)
    requires
        forall|k: int| 0 <= k < s.len() ==> is_digit(#[trigger] s[k]),
    ensures
        0 <= digits_val(s) < pow10(s.len() as nat),
    decreases s.len(),
{
    if s.len() == 0 {
    } else {
        lemma_digits_val_bound(s.drop_last());
        assert(is_digit(s[s.len() - 1]));
    }
}

/// Ten to a smaller power is no larger.
proof fn lemma_pow10_mono(a: nat, b: nat)
    requires
        a <= b,
    ensures
        pow10(a) <= pow10(b),
    decreases b,
{
    if a < b {
        lemma_pow10_mono(a, (b - 1) as nat);
        assert(pow10(b) == 10 * pow10((b - 1) as nat));
    }
}

/// The whole of `data` read as a decimal number: its value where `data`
/// is one to nineteen digits and nothing else, `None` otherwise.
pub open spec fn u64_of_digits(data: Seq<u8>) -> Option<int> {
    if data.len() == 0 || data.len() > 19 || exists|k: int|
        0 <= k < data.len() && !is_digit(#[trigger] data[k]) {
        None
    } else {
        Some(digits_val(data))
    }
}

/// Read the whole of `data` as a decimal number. Nineteen digits always
/// fit; longer runs are refused.
pub fn parse_u64(data: &Vec<u8>) -> (r: Option<u64>)
    ensures
        match r {
            Some(v) => u64_of_digits(data@) == Some(v as int),
            None => u64_of_digits(data@) is None,
        },
{
    if data.len() == 0 || data.len() > 19 {
        return None;
    }
    let mut acc: u64 = 0;
    let mut k: usize = 0;
    proof {
        assert(data@.subrange(0, 0) =~= Seq::<u8>::empty());
    }
    while k < data.len()
        invariant
            k <= data@.len(),
            data@.len() <= 19,
            forall|m: int| 0 <= m < k ==> is_digit(#[trigger] data@[m]),
            acc == digits_val(data@.subrange(0, k as int)),
            0 <= acc < pow10(k as nat),
        decreases data.len() - k,
    {
        let c = data[k];
        if c < 48 || c > 57 {
            return None;
        }
        proof {
            assert(data@.subrange(0, k + 1).drop_last() =~= data@.subrange(0, k as int));
            assert(data@.subrange(0, k + 1).last() == data@[k as int]);
            lemma_pow10_mono(k as nat, 18);
            assert(pow10(18) == 1000000000000000000) by {
                reveal_with_fuel(pow10, 19);
            }
            assert(acc * 10 + 9 < u64::MAX);
        }
        acc = acc * 10 + ((c - 48) as u64);
        k += 1;
    }
    proof {
        assert(data@.subrange(0, data@.len() as int) =~= data@);
    }
    Some(acc)
}

} // verus!
