//! The network command listener's decision core: classify an inbound
//! request by method and path, and extract the replacement command from
//! a path of the literal shape `/replace/<X>/with/<Y>`. Any deviation
//! from that shape — wrong segment count, keyword mismatch, a
//! multi-character or an empty segment (a doubled or trailing slash) —
//! is malformed. The listener itself only reads the request, asks here,
//! enqueues on success and writes the answer back.

use vstd::prelude::*;
use crate::channel::Command;

verus! {

/// What the listener answers a request with, and what it enqueues.
#[derive(PartialEq, Eq, Debug, Clone, Copy)]
pub enum RequestDecision {
    /// Anything but the read-only retrieval method.
    MethodNotAllowed,
    /// The path does not have the literal shape `/replace/<X>/with/<Y>`.
    BadFormat,
    /// A path byte in letter position is not an alphabetic character.
    BadLetter,
    /// A well-formed request: the command to enqueue, uppercased.
    Enqueue(Command),
}

/// ASCII lowering of one byte.
pub open spec fn lower_byte(b: u8) -> u8 {
    if 65 <= b <= 90 {
        (b + 32) as u8
    } else {
        b
    }
}

/// ASCII raising of one byte.
pub open spec fn upper_byte(b: u8) -> u8 {
    if 97 <= b <= 122 {
        (b - 32) as u8
    } else {
        b
    }
}

/// Whether the byte is an uppercase ASCII letter.
pub open spec fn is_upper_alpha(b: u8) -> bool {
    65 <= b <= 90
}

/// Case-insensitive ASCII equality of two byte sequences.
pub open spec fn eq_icase(a: Seq<u8>, b: Seq<u8>) -> bool {
    a.len() == b.len() && forall|i: int| 0 <= i < a.len() ==> lower_byte(a[i]) == lower_byte(
        b[i],
    )
}

/// The read-only retrieval method, the only one accepted.
pub open spec fn get_method() -> Seq<u8> {
    seq![71u8, 69u8, 84u8]
}

/// The first keyword of a well-formed path.
pub open spec fn replace_keyword() -> Seq<u8> {
    seq![114u8, 101u8, 112u8, 108u8, 97u8, 99u8, 101u8]
}

/// The second keyword of a well-formed path.
pub open spec fn with_keyword() -> Seq<u8> {
    seq![119u8, 105u8, 116u8, 104u8]
}

/// A path is well formed exactly when it is, byte for byte, the shape
/// `/replace/<X>/with/<Y>`: a leading slash, the keywords matched
/// case-insensitively, a single non-slash byte in each letter position
/// and nothing after the last. Empty segments — a doubled or a trailing
/// slash — make the shape fail, as does any other deviation.
pub open spec fn well_formed_path(p: Seq<u8>) -> bool {
    &&& p.len() == 17
    &&& p[0] == 47
    &&& eq_icase(p.subrange(1, 8), replace_keyword())
    &&& p[8] == 47
    &&& p[9] != 47
    &&& p[10] == 47
    &&& eq_icase(p.subrange(11, 15), with_keyword())
    &&& p[15] == 47
    &&& p[16] != 47
}

/// Whether both letter bytes of a well-formed path raise to uppercase
/// ASCII letters.
pub open spec fn letters_ok(p: Seq<u8>) -> bool {
    is_upper_alpha(upper_byte(p[9])) && is_upper_alpha(upper_byte(p[16]))
}

/// The command a well-formed path carries, uppercased.
pub open spec fn path_command(p: Seq<u8>) -> Command {
    (upper_byte(p[9]) as char, upper_byte(p[16]) as char)
}

/// The decision the listener owes each request.
pub open spec fn decision_spec(method: Seq<u8>, path: Seq<u8>) -> RequestDecision {
    if method != get_method() {
        RequestDecision::MethodNotAllowed
    } else if !well_formed_path(path) {
        RequestDecision::BadFormat
    } else if !letters_ok(path) {
        RequestDecision::BadLetter
    } else {
        RequestDecision::Enqueue(path_command(path))
    }
}

/// The HTTP status answered for each decision.
pub open spec fn status_of(d: RequestDecision) -> int {
    match d {
        RequestDecision::MethodNotAllowed => 405,
        RequestDecision::BadFormat => 400,
        RequestDecision::BadLetter => 400,
        RequestDecision::Enqueue(_) => 200,
    }
}

fn to_lower_byte(b: u8) -> (r: u8)
    ensures
        r == lower_byte(b),
{
    if b >= 65 && b <= 90 {
        b + 32
    } else {
        b
    }
}

fn to_upper_byte(b: u8) -> (r: u8)
    ensures
        r == upper_byte(b),
{
    if b >= 97 && b <= 122 {
        b - 32
    } else {
        b
    }
}

fn get_kw() -> (v: Vec<u8>)
    ensures
        v@ == get_method(),
{
    let mut v: Vec<u8> = Vec::new();
    v.push(71);
    v.push(69);
    v.push(84);
    proof {
        assert(v@ =~= get_method());
    }
    v
}

fn replace_kw() -> (v: Vec<u8>)
    ensures
        v@ == replace_keyword(),
{
    let mut v: Vec<u8> = Vec::new();
    v.push(114);
    v.push(101);
    v.push(112);
    v.push(108);
    v.push(97);
    v.push(99);
    v.push(101);
    proof {
        assert(v@ =~= replace_keyword());
    }
    v
}

fn with_kw() -> (v: Vec<u8>)
    ensures
        v@ == with_keyword(),
{
    let mut v: Vec<u8> = Vec::new();
    v.push(119);
    v.push(105);
    v.push(116);
    v.push(104);
    proof {
        assert(v@ =~= with_keyword());
    }
    v
}

fn bytes_eq(a: &Vec<u8>, b: &Vec<u8>) -> (r: bool)
    ensures
        r == (a@ == b@),
{
    if a.len() != b.len() {
        return false;
    }
    let mut i: usize = 0;
    while i < a.len()
        invariant
            a@.len() == b@.len(),
            i <= a@.len(),
            forall|k: int| 0 <= k < i ==> a@[k] == b@[k],
        decreases a@.len() - i,
    {
        if a[i] != b[i] {
            return false;
        }
        i += 1;
    }
    proof {
        assert(a@ =~= b@);
    }
    true
}

/// Case-insensitive comparison of `kw` against the bytes of `path`
/// starting at `start`.
fn match_icase_at(path: &Vec<u8>, start: usize, kw: &Vec<u8>) -> (r: bool)
    requires
        start + kw@.len() <= path@.len(),
    ensures
        r == eq_icase(path@.subrange(start as int, start as int + kw@.len() as int), kw@),
{
    let ghost sub = path@.subrange(start as int, start as int + kw@.len() as int);
    let n = path.len();
    let mut i: usize = 0;
    while i < kw.len()
        invariant
            n == path@.len(),
            start + kw@.len() <= path@.len(),
            sub == path@.subrange(start as int, start as int + kw@.len() as int),
            i <= kw@.len(),
            forall|k: int| 0 <= k < i ==> lower_byte(sub[k]) == lower_byte(kw@[k]),
        decreases kw@.len() - i,
    {
        proof {
            assert(start + i < path@.len());
            assert(sub[i as int] == path@[start + i]);
        }
        let j = start + i;
        if to_lower_byte(path[j]) != to_lower_byte(kw[i]) {
            return false;
        }
        i += 1;
    }
    true
}

/// Decide an inbound request from its method and path: the only
/// accepted form is the retrieval method on the literal shape
/// `/replace/<X>/with/<Y>` with single alphabetic letters, answered by
/// the uppercased command.
pub fn handle_request(method: &Vec<u8>, path: &Vec<u8>) -> (d: RequestDecision)
    ensures
        d == decision_spec(method@, path@),
{
    let get = get_kw();
    if !bytes_eq(method, &get) {
        return RequestDecision::MethodNotAllowed;
    }
    let rkw = replace_kw();
    let wkw = with_kw();
    let shape_ok = path.len() == 17 && path[0] == 47 && match_icase_at(path, 1, &rkw)
        && path[8] == 47 && path[9] != 47 && path[10] == 47 && match_icase_at(path, 11, &wkw)
        && path[15] == 47 && path[16] != 47;
    if !shape_ok {
        return RequestDecision::BadFormat;
    }
    let x = to_upper_byte(path[9]);
    let y = to_upper_byte(path[16]);
    if !(x >= 65 && x <= 90) || !(y >= 65 && y <= 90) {
        return RequestDecision::BadLetter;
    }
    RequestDecision::Enqueue((x as char, y as char))
}

/// The HTTP status the listener answers for a decision.
pub fn decision_status(d: &RequestDecision) -> (s: u16)
    ensures
        s as int == status_of(*d),
{
    match d {
        RequestDecision::MethodNotAllowed => 405,
        RequestDecision::BadFormat => 400,
        RequestDecision::BadLetter => 400,
        RequestDecision::Enqueue(_) => 200,
    }
}

} // verus!
