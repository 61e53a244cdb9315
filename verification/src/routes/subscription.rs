//! The subscription endpoint: decoding of form-encoded submission bodies,
//! the record built from an accepted submission, and the mapping of each
//! outcome to a response.
//!
//! A body is a sequence of `&`-separated pairs; each pair is split at its
//! first `=`; key and value are then decoded, where `+` stands for a space
//! and `%` followed by two hexadecimal digits stands for that byte. The two
//! required fields are `name` and `email`; unknown keys are ignored, a
//! repeated key or a missing one is a fault, and decoded values must be
//! valid UTF-8.

use vstd::prelude::*;
use vstd::slice::slice_subrange;
use vstd::slice::slice_to_vec;
use vstd::utf8::decode_utf8;
use vstd::utf8::valid_utf8;
use crate::routes::Response;

verus! {

/// A decoded submission body: the two required form fields.
#[derive(Debug)]
pub struct FormData {
    pub name: String,
    pub email: String,
}

/// The faults a submission body can show, each answered with 400.
#[derive(Clone, Copy, PartialEq, Eq, Structural, Debug)]
pub enum FormError {
    MissingName,
    MissingEmail,
    MissingBoth,
    DuplicateName,
    DuplicateEmail,
    InvalidUtf8,
}

/// An ASCII hexadecimal digit.
pub open spec fn is_hex_digit(b: u8) -> bool {
    (48 <= b <= 57) || (65 <= b <= 70) || (97 <= b <= 102)
}

/// The value of an ASCII hexadecimal digit.
pub open spec fn hex_value(b: u8) -> u8 {
    if 48 <= b <= 57 {
        (b - 48) as u8
    } else if 65 <= b <= 70 {
        (b - 55) as u8
    } else {
        (b - 87) as u8
    }
}

/// Decoding of one form token: `+` (43) stands for a space, `%` (37)
/// followed by two hexadecimal digits stands for that byte, and every other
/// byte — including a `%` not followed by two such digits — stands for
/// itself.
pub open spec fn decoded_bytes(s: Seq<u8>) -> Seq<u8>
    decreases s.len(),
{
    if s.len() == 0 {
        Seq::empty()
    } else if s[0] == 43 {
        seq![32u8] + decoded_bytes(s.skip(1))
    } else if s[0] == 37 && s.len() >= 3 && is_hex_digit(s[1]) && is_hex_digit(s[2]) {
        seq![(hex_value(s[1]) * 16 + hex_value(s[2])) as u8] + decoded_bytes(s.skip(3))
    } else {
        seq![s[0]] + decoded_bytes(s.skip(1))
    }
}

/// The pieces between `&` (38) separators, in order; a body with no
/// separator is one piece, and separators at the ends or next to each other
/// yield empty pieces.
pub open spec fn split_on_amp(s: Seq<u8>) -> Seq<Seq<u8>>
    decreases s.len(),
{
    if s.len() == 0 {
        seq![Seq::<u8>::empty()]
    } else if s[0] == 38 {
        seq![Seq::<u8>::empty()] + split_on_amp(s.skip(1))
    } else {
        let rest = split_on_amp(s.skip(1));
        seq![seq![s[0]] + rest[0]] + rest.skip(1)
    }
}

/// What stands before the first `=` (61) of a piece; the whole piece when it
/// has none.
pub open spec fn key_of(p: Seq<u8>) -> Seq<u8>
    decreases p.len(),
{
    if p.len() == 0 {
        Seq::empty()
    } else if p[0] == 61 {
        Seq::empty()
    } else {
        seq![p[0]] + key_of(p.skip(1))
    }
}

/// What stands after the first `=` (61) of a piece; empty when it has none.
pub open spec fn value_of(p: Seq<u8>) -> Seq<u8>
    decreases p.len(),
{
    if p.len() == 0 {
        Seq::empty()
    } else if p[0] == 61 {
        p.skip(1)
    } else {
        value_of(p.skip(1))
    }
}

/// The bytes of the key "name".
pub open spec fn name_key() -> Seq<u8> {
    seq![110u8, 97u8, 109u8, 101u8]
}

/// The bytes of the key "email".
pub open spec fn email_key() -> Seq<u8> {
    seq![101u8, 109u8, 97u8, 105u8, 108u8]
}

/// The walk over the pieces of a body: empty pieces are skipped, a known key
/// binds its decoded value once and a second time is a fault, and unknown
/// keys are ignored.
pub open spec fn scan_pairs(
    ps: Seq<Seq<u8>>,
    name: Option<Seq<u8>>,
    email: Option<Seq<u8>>,
) -> Result<(Option<Seq<u8>>, Option<Seq<u8>>), FormError>
    decreases ps.len(),
{
    if ps.len() == 0 {
        Ok((name, email))
    } else {
        let p = ps[0];
        if p.len() == 0 {
            scan_pairs(ps.skip(1), name, email)
        } else {
            let k = decoded_bytes(key_of(p));
            let v = decoded_bytes(value_of(p));
            if k == name_key() {
                if name is Some {
                    Err(FormError::DuplicateName)
                } else {
                    scan_pairs(ps.skip(1), Some(v), email)
                }
            } else if k == email_key() {
                if email is Some {
                    Err(FormError::DuplicateEmail)
                } else {
                    scan_pairs(ps.skip(1), name, Some(v))
                }
            } else {
                scan_pairs(ps.skip(1), name, email)
            }
        }
    }
}

/// What decoding a submission body yields at the byte level: the decoded
/// `name` and `email` values, or the first fault.
pub open spec fn form_fields(body: Seq<u8>) -> Result<(Seq<u8>, Seq<u8>), FormError> {
    match scan_pairs(split_on_amp(body), None, None) {
        Err(e) => Err(e),
        Ok((Some(n), Some(m))) => Ok((n, m)),
        Ok((None, Some(_))) => Err(FormError::MissingName),
        Ok((Some(_), None)) => Err(FormError::MissingEmail),
        Ok((None, None)) => Err(FormError::MissingBoth),
    }
}

/// What parsing a submission body yields: the two fields as character
/// strings, both decoded values being valid UTF-8.
pub open spec fn form_decoded(body: Seq<u8>) -> Result<(Seq<char>, Seq<char>), FormError> {
    match form_fields(body) {
        Err(e) => Err(e),
        Ok((n, m)) => if valid_utf8(n) && valid_utf8(m) {
            Ok((decode_utf8(n), decode_utf8(m)))
        } else {
            Err(FormError::InvalidUtf8)
        },
    }
}

proof fn lemma_split_on_amp_first(s: Seq<u8>, k: int)
    requires
        0 <= k < s.len(),
        s[k] == 38,
        forall|j: int| 0 <= j < k ==> s[j] != 38,
    ensures
        split_on_amp(s) =~~= seq![s.take(k)] + split_on_amp(s.skip(k + 1)),
    decreases k,
{
    if k == 0 {
        assert(s.take(0) =~= Seq::<u8>::empty());
    } else {
        lemma_split_on_amp_first(s.skip(1), k - 1);
        assert(s.skip(1).take(k - 1) =~= s.take(k).skip(1));
        assert(s.skip(1).skip(k) =~= s.skip(k + 1));
        assert(seq![s[0]] + s.take(k).skip(1) =~= s.take(k));
    }
}

proof fn lemma_split_on_amp_whole(s: Seq<u8>)
    requires
        forall|j: int| 0 <= j < s.len() ==> s[j] != 38,
    ensures
        split_on_amp(s) =~~= seq![s],
    decreases s.len(),
{
    if s.len() > 0 {
        lemma_split_on_amp_whole(s.skip(1));
        assert(seq![s[0]] + s.skip(1) =~= s);
    }
}

proof fn lemma_key_value_at(p: Seq<u8>, k: int)
    requires
        0 <= k < p.len(),
        p[k] == 61,
        forall|j: int| 0 <= j < k ==> p[j] != 61,
    ensures
        key_of(p) =~= p.take(k),
        value_of(p) =~= p.skip(k + 1),
    decreases k,
{
    if k == 0 {
        assert(p.take(0) =~= Seq::<u8>::empty());
    } else {
        lemma_key_value_at(p.skip(1), k - 1);
        assert(p.skip(1).take(k - 1) =~= p.take(k).skip(1));
        assert(p.skip(1).skip(k) =~= p.skip(k + 1));
        assert(seq![p[0]] + p.take(k).skip(1) =~= p.take(k));
    }
}

proof fn lemma_key_value_no_eq(p: Seq<u8>)
    requires
        forall|j: int| 0 <= j < p.len() ==> p[j] != 61,
    ensures
        key_of(p) =~= p,
        value_of(p) =~= Seq::<u8>::empty(),
    decreases p.len(),
{
    if p.len() > 0 {
        lemma_key_value_no_eq(p.skip(1));
        assert(seq![p[0]] + p.skip(1) =~= p);
    }
}

fn hex_digit_value(b: u8) -> (r: Option<u8>)
    ensures
        is_hex_digit(b) ==> (r matches Some(v) && v == hex_value(b)),
        !is_hex_digit(b) ==> r is None,
{
    if 48 <= b && b <= 57 {
        Some(b - 48)
    } else if 65 <= b && b <= 70 {
        Some(b - 55)
    } else if 97 <= b && b <= 102 {
        Some(b - 87)
    } else {
        None
    }
}

fn percent_decode(s: &[u8]) -> (r: Vec<u8>)
    ensures
        r@ == decoded_bytes(s@),
{
    let n = s.len();
    let mut out: Vec<u8> = Vec::new();
    let mut i: usize = 0;
    proof {
        assert(s@.skip(0) =~= s@);
        assert(out@ + decoded_bytes(s@) =~= decoded_bytes(s@));
    }
    while i < n
        invariant
            i <= n == s@.len(),
            decoded_bytes(s@) == out@ + decoded_bytes(s@.skip(i as int)),
        decreases n - i,
    {
        let ghost prev = out@;
        let b = s[i];
        proof {
            assert(s@.skip(i as int)[0] == s@[i as int]);
        }
        if b == 43 {
            out.push(32);
            proof {
                assert(s@.skip(i as int).skip(1) =~= s@.skip(i as int + 1));
                assert(prev + (seq![32u8] + decoded_bytes(s@.skip(i as int + 1))) =~= out@
                    + decoded_bytes(s@.skip(i as int + 1)));
            }
            i = i + 1;
        } else if b == 37 && n - i > 2 {
            proof {
                assert(s@.skip(i as int)[1] == s@[i as int + 1]);
                assert(s@.skip(i as int)[2] == s@[i as int + 2]);
            }
            let h1 = hex_digit_value(s[i + 1]);
            let h2 = hex_digit_value(s[i + 2]);
            match (h1, h2) {
                (Some(v1), Some(v2)) => {
                    let decoded: u8 = v1 * 16 + v2;
                    out.push(decoded);
                    proof {
                        assert(s@.skip(i as int).skip(3) =~= s@.skip(i as int + 3));
                        assert(prev + (seq![decoded] + decoded_bytes(s@.skip(i as int + 3))) =~= out@
                            + decoded_bytes(s@.skip(i as int + 3)));
                    }
                    i = i + 3;
                },
                _ => {
                    out.push(b);
                    proof {
                        assert(s@.skip(i as int).skip(1) =~= s@.skip(i as int + 1));
                        assert(prev + (seq![b] + decoded_bytes(s@.skip(i as int + 1))) =~= out@
                            + decoded_bytes(s@.skip(i as int + 1)));
                    }
                    i = i + 1;
                },
            }
        } else {
            out.push(b);
            proof {
                assert(s@.skip(i as int).skip(1) =~= s@.skip(i as int + 1));
                assert(prev + (seq![b] + decoded_bytes(s@.skip(i as int + 1))) =~= out@
                    + decoded_bytes(s@.skip(i as int + 1)));
            }
            i = i + 1;
        }
    }
    proof {
        assert(s@.skip(n as int) =~= Seq::<u8>::empty());
        assert(out@ + decoded_bytes(s@.skip(n as int)) =~= out@);
    }
    out
}

fn split_form_pieces(body: &[u8]) -> (r: Vec<Vec<u8>>)
    ensures
        r.deep_view() == split_on_amp(body@),
{
    let n = body.len();
    let mut pieces: Vec<Vec<u8>> = Vec::new();
    let mut start: usize = 0;
    let mut i: usize = 0;
    proof {
        assert(body@.skip(0) =~= body@);
        assert(pieces.deep_view() + split_on_amp(body@) =~~= split_on_amp(body@));
    }
    while i < n
        invariant
            start <= i <= n == body@.len(),
            split_on_amp(body@) =~~= pieces.deep_view() + split_on_amp(body@.skip(start as int)),
            forall|j: int| start <= j < i ==> body@[j] != 38,
        decreases n - i,
    {
        if body[i] == 38 {
            let ghost prev = pieces.deep_view();
            let piece = slice_to_vec(slice_subrange(body, start, i));
            pieces.push(piece);
            proof {
                let tail = body@.skip(start as int);
                assert(forall|j: int| 0 <= j < tail.len() ==> tail[j] == body@[start + j]);
                lemma_split_on_amp_first(tail, i - start);
                assert(tail.take(i - start) =~= piece@);
                assert(tail.skip(i - start + 1) =~= body@.skip(i as int + 1));
                assert(pieces.deep_view() =~~= prev + seq![piece@]);
                assert(prev + (seq![piece@] + split_on_amp(body@.skip(i as int + 1))) =~~= (prev
                    + seq![piece@]) + split_on_amp(body@.skip(i as int + 1)));
            }
            start = i + 1;
        }
        i = i + 1;
    }
    let ghost prev = pieces.deep_view();
    let last = slice_to_vec(slice_subrange(body, start, n));
    pieces.push(last);
    proof {
        let tail = body@.skip(start as int);
        assert(forall|j: int| 0 <= j < tail.len() ==> tail[j] == body@[start + j]);
        lemma_split_on_amp_whole(tail);
        assert(tail =~= last@);
        assert(pieces.deep_view() =~~= prev + seq![last@]);
    }
    pieces
}

fn split_key_value(piece: &[u8]) -> (r: (Vec<u8>, Vec<u8>))
    ensures
        r.0@ == key_of(piece@),
        r.1@ == value_of(piece@),
{
    let n = piece.len();
    let mut i: usize = 0;
    while i < n
        invariant
            i <= n == piece@.len(),
            forall|j: int| 0 <= j < i ==> piece@[j] != 61,
        decreases n - i,
    {
        if piece[i] == 61 {
            proof {
                lemma_key_value_at(piece@, i as int);
            }
            return (
                slice_to_vec(slice_subrange(piece, 0, i)),
                slice_to_vec(slice_subrange(piece, i + 1, n)),
            );
        }
        i = i + 1;
    }
    proof {
        lemma_key_value_no_eq(piece@);
    }
    (slice_to_vec(piece), Vec::new())
}

fn is_name_key(k: &Vec<u8>) -> (r: bool)
    ensures
        r == (k@ == name_key()),
{
    if k.len() != 4 {
        return false;
    }
    let r = k[0] == 110 && k[1] == 97 && k[2] == 109 && k[3] == 101;
    proof {
        if r {
            assert(k@ =~= name_key());
        }
    }
    r
}

fn is_email_key(k: &Vec<u8>) -> (r: bool)
    ensures
        r == (k@ == email_key()),
{
    if k.len() != 5 {
        return false;
    }
    let r = k[0] == 101 && k[1] == 109 && k[2] == 97 && k[3] == 105 && k[4] == 108;
    proof {
        if r {
            assert(k@ =~= email_key());
        }
    }
    r
}

/// Decodes a submission body into its two required fields: exactly what the
/// body grammar above yields, fault for fault.
pub fn parse_form_data(body: &[u8]) -> (r: Result<FormData, FormError>)
    ensures
        match r {
            Ok(f) => form_decoded(body@) == Ok::<(Seq<char>, Seq<char>), FormError>(
                (f.name@, f.email@),
            ),
            Err(e) => form_decoded(body@) == Err::<(Seq<char>, Seq<char>), FormError>(e),
        },
{
    let pieces = split_form_pieces(body);
    let ghost ps = pieces.deep_view();
    let n = pieces.len();
    let mut name_bytes: Option<Vec<u8>> = None;
    let mut email_bytes: Option<Vec<u8>> = None;
    let mut idx: usize = 0;
    proof {
        assert(ps.skip(0) =~~= ps);
    }
    while idx < n
        invariant
            idx <= n == pieces@.len(),
            ps == pieces.deep_view(),
            ps == split_on_amp(body@),
            scan_pairs(ps, None, None) == scan_pairs(
                ps.skip(idx as int),
                name_bytes.deep_view(),
                email_bytes.deep_view(),
            ),
        decreases n - idx,
    {
        let ghost nv0 = name_bytes.deep_view();
        let ghost ev0 = email_bytes.deep_view();
        proof {
            assert(ps.skip(idx as int)[0] == ps[idx as int]);
            assert(ps.skip(idx as int).skip(1) =~~= ps.skip(idx as int + 1));
        }
        let piece = &pieces[idx];
        assert(piece@ == ps[idx as int]);
        if piece.len() > 0 {
            let (k, v) = split_key_value(piece.as_slice());
            let dk = percent_decode(k.as_slice());
            let dv = percent_decode(v.as_slice());
            let ghost dvs = dv@;
            proof {
                assert(dk@ == decoded_bytes(key_of(piece@)));
                assert(dvs == decoded_bytes(value_of(piece@)));
            }
            if is_name_key(&dk) {
                if name_bytes.is_some() {
                    proof {
                        assert(scan_pairs(ps.skip(idx as int), nv0, ev0) == Err::<
                            (Option<Seq<u8>>, Option<Seq<u8>>),
                            FormError,
                        >(FormError::DuplicateName));
                    }
                    return Err(FormError::DuplicateName);
                }
                proof {
                    assert(dv.deep_view() =~= dvs);
                }
                name_bytes = Some(dv);
                proof {
                    assert(name_bytes.deep_view() == Some(dvs));
                    assert(scan_pairs(ps.skip(idx as int), nv0, ev0) == scan_pairs(
                        ps.skip(idx as int + 1),
                        Some(dvs),
                        ev0,
                    ));
                }
            } else if is_email_key(&dk) {
                if email_bytes.is_some() {
                    proof {
                        assert(scan_pairs(ps.skip(idx as int), nv0, ev0) == Err::<
                            (Option<Seq<u8>>, Option<Seq<u8>>),
                            FormError,
                        >(FormError::DuplicateEmail));
                    }
                    return Err(FormError::DuplicateEmail);
                }
                proof {
                    assert(dv.deep_view() =~= dvs);
                }
                email_bytes = Some(dv);
                proof {
                    assert(email_bytes.deep_view() == Some(dvs));
                    assert(scan_pairs(ps.skip(idx as int), nv0, ev0) == scan_pairs(
                        ps.skip(idx as int + 1),
                        nv0,
                        Some(dvs),
                    ));
                }
            } else {
                proof {
                    assert(scan_pairs(ps.skip(idx as int), nv0, ev0) == scan_pairs(
                        ps.skip(idx as int + 1),
                        nv0,
                        ev0,
                    ));
                }
            }
        } else {
            proof {
                assert(scan_pairs(ps.skip(idx as int), nv0, ev0) == scan_pairs(
                    ps.skip(idx as int + 1),
                    nv0,
                    ev0,
                ));
            }
        }
        idx = idx + 1;
    }
    proof {
        assert(ps.skip(n as int) =~~= Seq::<Seq<u8>>::empty());
        assert(scan_pairs(ps, None, None) == Ok::<(Option<Seq<u8>>, Option<Seq<u8>>), FormError>(
            (name_bytes.deep_view(), email_bytes.deep_view()),
        ));
    }
    match (name_bytes, email_bytes) {
        (Some(nb), Some(eb)) => {
            let ghost nbs = nb@;
            let ghost ebs = eb@;
            proof {
                assert(nb.deep_view() =~= nbs);
                assert(eb.deep_view() =~= ebs);
            }
            assert(form_fields(body@) == Ok::<(Seq<u8>, Seq<u8>), FormError>((nbs, ebs)));
            match bytes_to_string(nb) {
                Some(name) => match bytes_to_string(eb) {
                    Some(email) => Ok(FormData { name, email }),
                    None => Err(FormError::InvalidUtf8),
                },
                None => Err(FormError::InvalidUtf8),
            }
        },
        (None, Some(_)) => Err(FormError::MissingName),
        (Some(_), None) => Err(FormError::MissingEmail),
        (None, None) => Err(FormError::MissingBoth),
    }
}

/// Relies on String::from_utf8: it succeeds exactly on valid UTF-8 and then
/// yields its decoding, both as vstd's model of UTF-8 states them.
#[verifier::external_body]
fn bytes_to_string(v: Vec<u8>) -> (r: Option<String>)
    ensures
        match r {
            Some(s) => valid_utf8(v@) && s@ == decode_utf8(v@),
            None => !valid_utf8(v@),
        },
{
    match String::from_utf8(v) {
        Ok(s) => Some(s),
        Err(_) => None,
    }
}

/// Declares uuid's identifier type, so a freshly generated identifier can
/// stand in a subscription record and be handed on to the store.
#[verifier::external_type_specification]
#[verifier::external_body]
pub struct ExUuid(uuid::Uuid);

/// Relies on uuid::Uuid::new_v4: a freshly generated random identifier.
/// Nothing is assumed about the value.
#[verifier::external_body]
fn new_subscription_id() -> uuid::Uuid {
    uuid::Uuid::new_v4()
}

/// Relies on chrono::Utc::now and DateTime::timestamp_micros: the current
/// UTC time as microseconds since the Unix epoch. Nothing is assumed about
/// the value.
#[verifier::external_body]
fn now_utc_micros() -> i64 {
    chrono::Utc::now().timestamp_micros()
}

/// One subscription record as it is inserted: a fresh identifier generated
/// at submission time, the two submitted fields, and the capture time in
/// UTC, as microseconds since the Unix epoch.
pub struct NewSubscription {
    pub id: uuid::Uuid,
    pub email: String,
    pub name: String,
    pub subscribed_at_micros: i64,
}

/// What the subscription endpoint decides for one request: insert a record,
/// or reject the submission outright with a response.
pub enum SubscriptionAction {
    Insert(NewSubscription),
    Reject(Response),
}

/// The subscription endpoint's decision for one request body. A body that
/// decodes to both required fields yields a record to insert, carrying
/// exactly the decoded name and email; any other body is rejected with 400
/// and an empty body, and no record is created for it.
pub fn subscribe(body: &[u8]) -> (r: SubscriptionAction)
    ensures
        match r {
            SubscriptionAction::Insert(rec) => form_decoded(body@) == Ok::<
                (Seq<char>, Seq<char>),
                FormError,
            >((rec.name@, rec.email@)),
            SubscriptionAction::Reject(resp) => form_decoded(body@) is Err && resp.status == 400
                && resp.body@.len() == 0,
        },
{
    match parse_form_data(body) {
        Ok(form) => SubscriptionAction::Insert(
            NewSubscription {
                id: new_subscription_id(),
                email: form.email,
                name: form.name,
                subscribed_at_micros: now_utc_micros(),
            },
        ),
        Err(_) => SubscriptionAction::Reject(Response { status: 400, body: Vec::new() }),
    }
}

/// Maps the persistence outcome of an accepted submission: success answers
/// 200, any failure answers 500, both with an empty body — the failure
/// detail goes to the operational log, never to the client.
pub fn subscription_response(insert_ok: bool) -> (r: Response)
    ensures
        insert_ok ==> r.status == 200,
        !insert_ok ==> r.status == 500,
        r.body@.len() == 0,
{
    if insert_ok {
        Response { status: 200, body: Vec::new() }
    } else {
        Response { status: 500, body: Vec::new() }
    }
}

/// The status the endpoint answers for a request body, given whether the
/// store accepted the insert: 400 for a body that does not decode, else 200
/// on success and 500 on failure.
pub open spec fn spec_subscription_status(body: Seq<u8>, insert_ok: bool) -> int {
    if form_decoded(body) is Err {
        400
    } else if insert_ok {
        200
    } else {
        500
    }
}

proof fn lemma_scan_keeps_missing_name(ps: Seq<Seq<u8>>, email: Option<Seq<u8>>)
    requires
        forall|i: int| 0 <= i < ps.len() ==> decoded_bytes(key_of(#[trigger] ps[i])) != name_key(),
    ensures
        scan_pairs(ps, None, email) matches Ok((n, m)) ==> n is None,
    decreases ps.len(),
{
    if ps.len() > 0 {
        assert forall|i: int| 0 <= i < ps.skip(1).len() implies decoded_bytes(
            key_of(#[trigger] ps.skip(1)[i]),
        ) != name_key() by {
            assert(ps.skip(1)[i] == ps[i + 1]);
        }
        let p = ps[0];
        if p.len() == 0 {
            lemma_scan_keeps_missing_name(ps.skip(1), email);
        } else {
            let k = decoded_bytes(key_of(p));
            let v = decoded_bytes(value_of(p));
            assert(k != name_key());
            if k == email_key() && email is None {
                lemma_scan_keeps_missing_name(ps.skip(1), Some(v));
            } else if k != email_key() {
                lemma_scan_keeps_missing_name(ps.skip(1), email);
            }
        }
    }
}

proof fn lemma_scan_keeps_missing_email(ps: Seq<Seq<u8>>, name: Option<Seq<u8>>)
    requires
        forall|i: int| 0 <= i < ps.len() ==> decoded_bytes(key_of(#[trigger] ps[i]))
            != email_key(),
    ensures
        scan_pairs(ps, name, None) matches Ok((n, m)) ==> m is None,
    decreases ps.len(),
{
    if ps.len() > 0 {
        assert forall|i: int| 0 <= i < ps.skip(1).len() implies decoded_bytes(
            key_of(#[trigger] ps.skip(1)[i]),
        ) != email_key() by {
            assert(ps.skip(1)[i] == ps[i + 1]);
        }
        let p = ps[0];
        if p.len() == 0 {
            lemma_scan_keeps_missing_email(ps.skip(1), name);
        } else {
            let k = decoded_bytes(key_of(p));
            let v = decoded_bytes(value_of(p));
            assert(k != email_key());
            if k == name_key() && name is None {
                lemma_scan_keeps_missing_email(ps.skip(1), Some(v));
            } else if k != name_key() {
                lemma_scan_keeps_missing_email(ps.skip(1), name);
            }
        }
    }
}

/// Law: a body none of whose pairs carries the key "name" does not decode,
/// so the submission is rejected and no record is created for it.
pub proof fn lemma_missing_name_rejected(body: Seq<u8>)
    requires
        forall|i: int| 0 <= i < split_on_amp(body).len() ==> decoded_bytes(
            key_of(#[trigger] split_on_amp(body)[i]),
        ) != name_key(),
    ensures
        form_decoded(body) is Err,
{
    lemma_scan_keeps_missing_name(split_on_amp(body), None);
}

/// Law: a body none of whose pairs carries the key "email" does not decode,
/// so the submission is rejected and no record is created for it.
pub proof fn lemma_missing_email_rejected(body: Seq<u8>)
    requires
        forall|i: int| 0 <= i < split_on_amp(body).len() ==> decoded_bytes(
            key_of(#[trigger] split_on_amp(body)[i]),
        ) != email_key(),
    ensures
        form_decoded(body) is Err,
{
    lemma_scan_keeps_missing_email(split_on_amp(body), None);
}

/// Law: a submission whose body decodes to both required fields answers 200
/// exactly when the insert succeeded; one whose body does not decode —
/// missing either or both fields, or malformed — answers 400, whatever the
/// store would have done.
pub proof fn lemma_submission_status(body: Seq<u8>, insert_ok: bool)
    ensures
        form_decoded(body) is Ok ==> spec_subscription_status(body, insert_ok) == (
        if insert_ok {
            200int
        } else {
            500int
        }),
        form_decoded(body) is Err ==> spec_subscription_status(body, insert_ok) == 400,
{
}

} // verus!
