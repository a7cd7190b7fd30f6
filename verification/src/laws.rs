//! What holds of the service as a whole, proved from the definitions that
//! the contracts of its functions use.

use vstd::prelude::*;
use vstd::string::*;
use vstd::utf8::*;
use crate::auth::spec_check_basic_auth;
use crate::base64::spec_base64_decode;
use crate::encode::{
    is_base62, is_short_code, lemma_encode_is_short_code, spec_encode, spec_salted,
    spec_short_code,
};
use crate::handlers::{
    code_of_path, collides, spec_assign, spec_handle_err, spec_handle_get,
    spec_post_outcome, spec_post_response, spec_post_store, MAX_ATTEMPT,
};
use crate::headers::spec_header_value;
use crate::number::{spec_parse_usize, IntErrorKind};
use crate::request::{
    capped, line_at, spec_header_line, spec_parse_header_line, spec_parse_req,
    spec_parse_request_line, spec_read_headers, ErrorModel, HeadModel, LineModel, RequestModel,
    StepModel, MAX_BODY, MAX_HEADER,
};
use crate::response::{
    spec_found, spec_plain, spec_redirect_to_root, spec_root, spec_server_error,
    spec_unauthorized,
};
use crate::space::{after_first_token, first_token};
use crate::store::StoreModel;
use crate::text::{
    digit_char, digit_value, has_prefix, lemma_find_byte, numeral_value, spec_digits,
    spec_numeral,
};

verus! {

/// Encoding is deterministic: two strings that are each the code of one
/// text are the same string.
pub proof fn encode_is_deterministic(text: Seq<u8>, first: Seq<char>, second: Seq<char>)
    requires
        encode_utf8(first) == spec_encode(text),
        encode_utf8(second) == spec_encode(text),
    ensures
        first == second,
{
    encode_utf8_decode_utf8(first);
    encode_utf8_decode_utf8(second);
}

/// A numeral writes its number, most significant digit first, in digits
/// below the radix, and starts with `0` only where the number is zero. So
/// the Base62 text of a hash prefix determines the prefix.
pub proof fn numeral_writes_its_number(n: nat, radix: nat)
    requires
        2 <= radix <= 62,
    ensures
        numeral_value(spec_numeral(n, radix), radix) == n,
        numeral_value(spec_digits(n, radix), radix) == n,
        forall|i: int|
            0 <= i < spec_digits(n, radix).len() ==> digit_value(
                #[trigger] spec_digits(n, radix)[i],
            ) < radix,
        n > 0 ==> spec_digits(n, radix).len() > 0 && spec_digits(n, radix)[0] != 0x30,
    decreases n,
{
    if n == 0 {
        assert(seq![0x30u8].drop_last() == Seq::<u8>::empty());
        assert(numeral_value(seq![0x30u8].drop_last(), radix) == 0);
    } else {
        assert(n / radix < n && n % radix < radix && (n / radix) * radix + n % radix == n)
            by (nonlinear_arith)
            requires
                n > 0,
                radix >= 2,
        ;
        numeral_writes_its_number(n / radix, radix);
        let upper = spec_digits(n / radix, radix);
        let digits = spec_digits(n, radix);
        assert(digits.drop_last() == upper);
        assert(digit_value(digit_char(n % radix)) == n % radix);
        assert forall|i: int| 0 <= i < digits.len() implies digit_value(#[trigger] digits[i])
            < radix by {
            if i < upper.len() {
                assert(digits[i] == upper[i]);
            }
        }
        if n / radix == 0 {
            assert(n % radix == n);
            assert(digits[0] == digit_char(n % radix));
        } else {
            assert(digits[0] == upper[0]);
        }
    }
}

/// The candidate at every attempt is one to seven Base62 characters.
pub proof fn candidates_are_short_codes(url: Seq<u8>, attempt: nat)
    ensures
        is_short_code(spec_short_code(url, attempt)),
{
    lemma_encode_is_short_code(spec_salted(url, attempt));
}

/// The attempt at which `spec_assign` stops when started at `from`: the
/// first that does not collide, or 11 where all of them collide.
pub open spec fn settled_attempt(store: StoreModel, url: Seq<u8>, from: nat) -> nat
    decreases MAX_ATTEMPT + 1 - from,
{
    if from > MAX_ATTEMPT || !collides(store, spec_short_code(url, from), url) {
        from
    } else {
        settled_attempt(store, url, from + 1)
    }
}

proof fn lemma_settled_attempt(store: StoreModel, url: Seq<u8>, from: nat)
    requires
        from <= MAX_ATTEMPT,
    ensures
        from <= settled_attempt(store, url, from) <= MAX_ATTEMPT + 1,
        forall|earlier: nat|
            from <= earlier < settled_attempt(store, url, from) ==> collides(
                store,
                #[trigger] spec_short_code(url, earlier),
                url,
            ),
        settled_attempt(store, url, from) <= MAX_ATTEMPT ==> spec_assign(store, url, from) == Some(
            spec_short_code(url, settled_attempt(store, url, from)),
        ) && !collides(store, spec_short_code(url, settled_attempt(store, url, from)), url),
        settled_attempt(store, url, from) > MAX_ATTEMPT ==> spec_assign(store, url, from) is None,
    decreases MAX_ATTEMPT + 1 - from,
{
    if collides(store, spec_short_code(url, from), url) {
        if from < MAX_ATTEMPT {
            lemma_settled_attempt(store, url, from + 1);
        } else {
            assert(settled_attempt(store, url, from + 1) == from + 1);
        }
        assert forall|earlier: nat|
            from <= earlier < settled_attempt(store, url, from) implies collides(
            store,
            #[trigger] spec_short_code(url, earlier),
            url,
        ) by {
            if earlier > from {
                assert(from + 1 <= earlier);
            }
        }
    }
}

/// The collision policy tries the candidates of attempts 0 to 10 in turn,
/// eleven at most. It hands out the first that is free or already stands
/// for the URL, and fails exactly when all eleven are taken by other URLs.
pub proof fn assign_tries_eleven(store: StoreModel, url: Seq<u8>)
    ensures
        match spec_assign(store, url, 0) {
            Some(code) => exists|attempt: nat|
                {
                    &&& attempt <= 10
                    &&& code == #[trigger] spec_short_code(url, attempt)
                    &&& !collides(store, code, url)
                    &&& forall|earlier: nat|
                        earlier < attempt ==> collides(
                            store,
                            #[trigger] spec_short_code(url, earlier),
                            url,
                        )
                },
            None => forall|attempt: nat|
                attempt <= 10 ==> collides(store, #[trigger] spec_short_code(url, attempt), url),
        },
{
    lemma_settled_attempt(store, url, 0);
    let attempt = settled_attempt(store, url, 0);
    if attempt <= MAX_ATTEMPT {
        assert(spec_assign(store, url, 0) == Some(spec_short_code(url, attempt)));
    }
}

/// The path `/` followed by a short code names that code, and is not the
/// root.
pub proof fn lemma_path_of_code(code: Seq<u8>)
    requires
        is_short_code(code),
    ensures
        code_of_path("/".spec_bytes() + code) == Some(code),
        "/".spec_bytes() + code != "/".spec_bytes(),
{
    reveal_strlit("/");
    is_ascii_chars_encode_utf8("/"@);
    let path = "/".spec_bytes() + code;
    assert(path[0] == 0x2F);
    assert(path.skip(1) == code);
    assert(path.len() == 1 + code.len());
}

/// Round trip: once a create request has been answered with a code, a `GET`
/// of `/` and that code is answered with a 302 to the URL of the request,
/// byte for byte.
pub proof fn round_trip(store: StoreModel, req: RequestModel, secret: Seq<u8>)
    requires
        spec_post_outcome(store, req, secret) is Created,
    ensures
        ({
            let outcome = spec_post_outcome(store, req, secret);
            let after = spec_post_store(store, outcome);
            spec_handle_get(after, "/".spec_bytes() + outcome->code) == spec_found(outcome->url)
        }),
{
    let outcome = spec_post_outcome(store, req, secret);
    let url = outcome->url;
    lemma_settled_attempt(store, url, 0);
    candidates_are_short_codes(url, settled_attempt(store, url, 0));
    lemma_path_of_code(outcome->code);
}

/// Idempotence: the same create request, made again, is answered with the
/// same code and leaves the store as the first left it.
pub proof fn create_is_idempotent(store: StoreModel, req: RequestModel, secret: Seq<u8>)
    requires
        spec_post_outcome(store, req, secret) is Created,
    ensures
        ({
            let outcome = spec_post_outcome(store, req, secret);
            let after = spec_post_store(store, outcome);
            &&& spec_post_outcome(after, req, secret) == outcome
            &&& spec_post_store(after, outcome) == after
        }),
{
    let outcome = spec_post_outcome(store, req, secret);
    let url = outcome->url;
    let code = outcome->code;
    let after = spec_post_store(store, outcome);
    lemma_settled_attempt(store, url, 0);
    lemma_settled_attempt(after, url, 0);
    let attempt = settled_attempt(store, url, 0);
    let again = settled_attempt(after, url, 0);
    assert(!collides(after, spec_short_code(url, attempt), url));
    if again < attempt {
        assert(collides(store, spec_short_code(url, again), url));
        assert(!collides(after, spec_short_code(url, again), url));
        assert(false);
    }
    if attempt < again {
        assert(collides(after, spec_short_code(url, attempt), url));
        assert(false);
    }
    assert(after.insert(code, url) =~= after);
}

/// The three digits of the status in a response: what follows the
/// protocol version and a space.
pub open spec fn status_code(response: Seq<u8>) -> Seq<u8> {
    response.subrange(9, 12)
}

/// The status digits of the three responses to a `GET`: 200, 302, 303.
pub proof fn lemma_get_statuses(url: Seq<u8>)
    ensures
        status_code(spec_root()) == seq![0x32u8, 0x30u8, 0x30u8],
        status_code(spec_found(url)) == seq![0x33u8, 0x30u8, 0x32u8],
        status_code(spec_redirect_to_root()) == seq![0x33u8, 0x30u8, 0x33u8],
{
    reveal_strlit("HTTP/1.1 ");
    reveal_strlit("200 OK");
    reveal_strlit("302 Found");
    reveal_strlit("303 See Other");
    is_ascii_chars_encode_utf8("HTTP/1.1 "@);
    is_ascii_chars_encode_utf8("200 OK"@);
    is_ascii_chars_encode_utf8("302 Found"@);
    is_ascii_chars_encode_utf8("303 See Other"@);
    let version = "HTTP/1.1 ".spec_bytes();
    assert(version.len() == 9);
    let ok = version + "200 OK".spec_bytes();
    let found = version + "302 Found".spec_bytes();
    let see_other = version + "303 See Other".spec_bytes();
    assert(ok.subrange(9, 12) == seq![0x32u8, 0x30u8, 0x30u8]);
    assert(found.subrange(9, 12) == seq![0x33u8, 0x30u8, 0x32u8]);
    assert(see_other.subrange(9, 12) == seq![0x33u8, 0x30u8, 0x33u8]);
    assert(status_code(spec_root()) == ok.subrange(9, 12));
    assert(status_code(spec_found(url)) == found.subrange(9, 12));
    assert(status_code(spec_redirect_to_root()) == see_other.subrange(9, 12));
}

/// What a `GET` is answered with, for every store and every path: 200 and
/// the hint exactly at `/`; 302, to the stored URL, exactly where the path
/// is one `/` followed by a short code that the store holds; 303 to `/`
/// for every other path. It is never answered with an error.
pub proof fn get_answers(store: StoreModel, path: Seq<u8>)
    ensures
        ({
            let response = spec_handle_get(store, path);
            let root = path == "/".spec_bytes();
            let stored = path.len() > 0 && path[0] == 0x2F && is_short_code(path.skip(1))
                && store.contains_key(path.skip(1));
            &&& !(root && stored)
            &&& root <==> status_code(response) == seq![0x32u8, 0x30u8, 0x30u8]
            &&& stored <==> status_code(response) == seq![0x33u8, 0x30u8, 0x32u8]
            &&& !root && !stored <==> status_code(response) == seq![0x33u8, 0x30u8, 0x33u8]
            &&& root ==> response == spec_root()
            &&& stored ==> response == spec_found(store[path.skip(1)])
            &&& !root && !stored ==> response == spec_redirect_to_root()
        }),
{
    reveal_strlit("/");
    is_ascii_chars_encode_utf8("/"@);
    if path == "/".spec_bytes() {
        assert(path.skip(1).len() == 0);
    }
    if path.len() > 0 {
        lemma_get_statuses(store[path.skip(1)]);
    } else {
        lemma_get_statuses(Seq::empty());
    }
    assert(seq![0x32u8, 0x30u8, 0x30u8][0] != seq![0x33u8, 0x30u8, 0x32u8][0]);
    assert(seq![0x32u8, 0x30u8, 0x30u8][0] != seq![0x33u8, 0x30u8, 0x33u8][0]);
    assert(seq![0x33u8, 0x30u8, 0x32u8][2] != seq![0x33u8, 0x30u8, 0x33u8][2]);
}

/// A path other than `/` that is not one slash followed by a short code is
/// answered with a 303 to `/`, whatever the store holds: so a path without
/// a slash at its start, and one whose part after the slash is empty,
/// longer than seven bytes, or holds a byte outside Base62.
pub proof fn malformed_path_redirects(store: StoreModel, path: Seq<u8>)
    requires
        path != "/".spec_bytes(),
        path.len() == 0 || path[0] != 0x2F || !is_short_code(path.skip(1)),
    ensures
        spec_handle_get(store, path) == spec_redirect_to_root(),
{
}

/// A further slash makes a path malformed: a path with a slash anywhere
/// after its first byte is answered with a 303 to `/`, whatever the store
/// holds. So slashes before a stored code do not lead to it.
pub proof fn further_slash_redirects(store: StoreModel, path: Seq<u8>, at: int)
    requires
        1 <= at < path.len(),
        path[at] == 0x2F,
    ensures
        spec_handle_get(store, path) == spec_redirect_to_root(),
{
    reveal_strlit("/");
    is_ascii_chars_encode_utf8("/"@);
    assert(path.skip(1)[at - 1] == 0x2F);
    assert(!is_base62(path.skip(1)[at - 1]));
}

/// A path of one slash and a short code that the store does not hold is
/// answered with a 303 to `/`.
pub proof fn unknown_code_redirects(store: StoreModel, path: Seq<u8>)
    requires
        path != "/".spec_bytes(),
        !store.contains_key(path.skip(1)),
    ensures
        spec_handle_get(store, path) == spec_redirect_to_root(),
{
}

proof fn lemma_headers_keep_the_request_line(input: Seq<u8>, pos: int, head: HeadModel)
    ensures
        spec_read_headers(input, pos, head) matches Ok(req) ==> req.method == head.method
            && req.path == head.path,
    decreases head.budget,
{
    let line = line_at(input, pos, head.budget);
    match spec_parse_header_line(head, line) {
        Ok(StepModel::More(next)) => {
            lemma_headers_keep_the_request_line(input, pos + line.len(), next);
        },
        _ => {},
    }
}

/// Every request that is read has the method `GET` or `POST`, in upper
/// case, and a path that is not empty.
pub proof fn method_is_get_or_post(input: Seq<u8>)
    ensures
        spec_parse_req(input) matches Ok(req) ==> {
            &&& req.method == "GET".spec_bytes() || req.method == "POST".spec_bytes()
            &&& req.path.len() > 0
        },
{
    let line = line_at(input, 0, MAX_HEADER as nat);
    match spec_parse_request_line(line) {
        Ok(head) => {
            lemma_headers_keep_the_request_line(input, line.len() as int, head);
        },
        Err(_) => {},
    }
}

/// A request line with fewer than two tokens is refused as an invalid
/// request line, whatever follows it, and the response to that is a 400.
pub proof fn one_token_line_is_refused(input: Seq<u8>)
    requires
        ({
            let line = line_at(input, 0, MAX_HEADER as nat);
            &&& line.len() > 0
            &&& valid_utf8(line)
            &&& first_token(after_first_token(line)).len() == 0
        }),
    ensures
        spec_parse_req(input) == Err::<RequestModel, ErrorModel>(ErrorModel::InvalidReqLine),
        spec_handle_err(ErrorModel::InvalidReqLine) == spec_plain(
            "400 Bad Request".spec_bytes(),
            "Invalid request line".spec_bytes(),
        ),
{
    let line = line_at(input, 0, MAX_HEADER as nat);
    lemma_line_within(input, 0, MAX_HEADER as nat);
    assert(capped(line, MAX_HEADER as nat) == line);
}

/// A line read with a limit is no longer than the limit.
pub proof fn lemma_line_within(input: Seq<u8>, pos: int, limit: nat)
    requires
        0 <= pos <= input.len(),
    ensures
        line_at(input, pos, limit).len() <= limit,
        pos + line_at(input, pos, limit).len() <= input.len(),
{
    let rest = capped(input.skip(pos), limit);
    lemma_find_byte(rest, 0x0A, 0);
}

/// Where the headers end and declare a body longer than the cap, the
/// request is refused as oversized at that line: no body is asked for, and
/// the response is a 400.
pub proof fn oversized_body_is_refused(head: HeadModel, line: Seq<u8>, declared: nat)
    requires
        spec_header_line(capped(line, head.budget)) == Ok::<LineModel, ErrorModel>(LineModel::End),
        spec_header_value(head.headers, "Content-Length".spec_bytes(), 0) is Some,
        spec_parse_usize(spec_header_value(head.headers, "Content-Length".spec_bytes(), 0)->0)
            == Ok::<nat, IntErrorKind>(declared),
        declared > MAX_BODY,
    ensures
        spec_parse_header_line(head, line) == Err::<StepModel, ErrorModel>(
            ErrorModel::OversizedBody,
        ),
        spec_handle_err(ErrorModel::OversizedBody) == spec_plain(
            "400 Bad Request".spec_bytes(),
            "Request body is too large".spec_bytes(),
        ),
{
}

/// A body is only ever asked for with a length within the cap.
pub proof fn body_demand_is_bounded(head: HeadModel, line: Seq<u8>)
    requires
        spec_parse_header_line(head, line) matches Ok(StepModel::Body(_)),
    ensures
        spec_parse_header_line(head, line) matches Ok(StepModel::Body(pending)) && pending.len
            <= MAX_BODY,
{
}

/// Without a configured secret every create request fails closed: a 500,
/// whatever its headers and body, and the store stays as it is.
pub proof fn missing_secret_fails_closed(store: StoreModel, req: RequestModel)
    ensures
        spec_post_response(spec_post_outcome(store, req, Seq::empty())) == spec_server_error(),
        spec_post_store(store, spec_post_outcome(store, req, Seq::empty())) == store,
{
}

/// With a secret configured, a create request is answered with a 401 and a
/// Basic challenge, and the store stays as it is, where the request has no
/// `Authorization` field, or the field does not read `Basic ` and Base64,
/// or what it decodes to is not the secret.
pub proof fn bad_credentials_are_challenged(store: StoreModel, req: RequestModel, secret: Seq<u8>)
    requires
        secret.len() > 0,
        ({
            let sent = spec_header_value(req.headers, "Authorization".spec_bytes(), 0);
            let scheme = "Basic ".spec_bytes();
            ||| sent is None
            ||| !has_prefix(sent->0, scheme)
            ||| spec_base64_decode(sent->0.skip(scheme.len() as int)) is None
            ||| spec_base64_decode(sent->0.skip(scheme.len() as int)) != Some(secret)
        }),
    ensures
        spec_post_response(spec_post_outcome(store, req, secret)) == spec_unauthorized(),
        spec_post_store(store, spec_post_outcome(store, req, secret)) == store,
        spec_unauthorized() == "HTTP/1.1 401 Unauthorized\r\n".spec_bytes()
            + "WWW-Authenticate: Basic\r\n".spec_bytes()
            + "Content-Length: 0\r\nConnection: close\r\n\r\n".spec_bytes(),
{
    assert(!spec_check_basic_auth(req.headers, secret));
    lemma_status_line();
}

proof fn lemma_status_line()
    ensures
        "HTTP/1.1 ".spec_bytes() + "401 Unauthorized".spec_bytes() + "\r\n".spec_bytes()
            == "HTTP/1.1 401 Unauthorized\r\n".spec_bytes(),
{
    reveal_strlit("HTTP/1.1 ");
    reveal_strlit("401 Unauthorized");
    reveal_strlit("\r\n");
    reveal_strlit("HTTP/1.1 401 Unauthorized\r\n");
    is_ascii_chars_encode_utf8("HTTP/1.1 "@);
    is_ascii_chars_encode_utf8("401 Unauthorized"@);
    is_ascii_chars_encode_utf8("\r\n"@);
    is_ascii_chars_encode_utf8("HTTP/1.1 401 Unauthorized\r\n"@);
    assert("HTTP/1.1 ".spec_bytes() + "401 Unauthorized".spec_bytes() + "\r\n".spec_bytes()
        =~= "HTTP/1.1 401 Unauthorized\r\n".spec_bytes());
}

} // verus!
