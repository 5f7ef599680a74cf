//! Properties of the handler, stated from the raw bytes of a request.

use vstd::prelude::*;

use crate::bytes::{decimal, trim_trailing_nul};
use crate::request::{
    get_word, lemma_index_of_at, lemma_parse_headers_shift, parse_headers, parse_request, plain_request,
    post_word, raw_request_parses, request_bytes, token, token_from, CR, LF, SP,
};
use crate::response::{
    content_length_label, content_type_label, crlf, octet_stream, ok_text, response_spec, text_plain,
    StatusCode,
};
use crate::router::{
    default_version, echo_prefix, files_prefix, handle_spec, has_parent_segment, header_lookup, read_reply,
    reflection_key, reply_version, resolve, root_path, starts_with, ActionModel, SLASH,
};

verus! {

/// A request for a path starting with `/echo/` is answered with status 200,
/// content type `text/plain`, a content length equal to the byte length of
/// the rest of the path, and that rest, verbatim, as the body.
pub proof fn echo_replies_with_suffix(m: Seq<u8>, p: Seq<u8>, v: Seq<u8>, rest: Seq<u8>, base: Seq<u8>)
    requires
        plain_request(m, p, v, rest),
        starts_with(p, echo_prefix()),
    ensures
        ({
            let e = p.subrange(6, p.len() as int);
            handle_spec(request_bytes(m, p, v, rest), base) == ActionModel::Send(
                reply_version(v) + seq![SP] + ok_text() + crlf() + content_type_label() + text_plain()
                    + crlf() + content_length_label() + decimal(e.len()) + crlf() + crlf() + e,
            )
        }),
{
    raw_request_parses(m, p, v, rest);
}

/// A body posted to `/files/<n>` is stored at the very file that a later
/// `GET /files/<n>` reads, and reading back those bytes answers status 200
/// with exactly them as the body. Names with a `..` segment are refused
/// by both routes instead.
pub proof fn post_then_get_round_trip(
    n: Seq<u8>,
    v1: Seq<u8>,
    rest1: Seq<u8>,
    v2: Seq<u8>,
    rest2: Seq<u8>,
    base: Seq<u8>,
)
    requires
        plain_request(post_word(), files_prefix() + n, v1, rest1),
        plain_request(get_word(), files_prefix() + n, v2, rest2),
        !has_parent_segment(n),
    ensures
        ({
            let p = files_prefix() + n;
            let b = parse_headers(rest1, 0)->Some_0.1;
            &&& handle_spec(request_bytes(post_word(), p, v1, rest1), base) == ActionModel::WriteFile(
                resolve(base, n),
                b,
                reply_version(v1),
            )
            &&& handle_spec(request_bytes(get_word(), p, v2, rest2), base) == ActionModel::ReadFile(
                resolve(base, n),
                reply_version(v2),
            )
            &&& read_reply(reply_version(v2), b) == reply_version(v2) + seq![SP] + ok_text() + crlf()
                + content_type_label() + octet_stream() + crlf() + content_length_label() + decimal(
                b.len(),
            ) + crlf() + crlf() + b
        }),
{
    let p = files_prefix() + n;
    raw_request_parses(post_word(), p, v1, rest1);
    raw_request_parses(get_word(), p, v2, rest2);
    assert(p.subrange(0, 7) =~= files_prefix());
    assert(p.subrange(7, p.len() as int) =~= n);
    assert(!starts_with(p, echo_prefix())) by {
        if starts_with(p, echo_prefix()) {
            assert(p.subrange(0, 6)[1] == p[1]);
        }
    }
    assert(post_word() != get_word()) by {
        assert(post_word().len() != get_word().len());
    }
}

/// `GET /files/<n>` reads `<base>/<n>`; when that file is missing the
/// answer is status 404 with an empty body (see `read_file_response`).
pub proof fn file_get_reads_resolved_path(n: Seq<u8>, v: Seq<u8>, rest: Seq<u8>, base: Seq<u8>)
    requires
        plain_request(get_word(), files_prefix() + n, v, rest),
        !has_parent_segment(n),
    ensures
        handle_spec(request_bytes(get_word(), files_prefix() + n, v, rest), base) == ActionModel::ReadFile(
            resolve(base, n),
            reply_version(v),
        ),
{
    let p = files_prefix() + n;
    raw_request_parses(get_word(), p, v, rest);
    assert(p.subrange(0, 7) =~= files_prefix());
    assert(p.subrange(7, p.len() as int) =~= n);
    assert(!starts_with(p, echo_prefix())) by {
        if starts_with(p, echo_prefix()) {
            assert(p.subrange(0, 6)[1] == p[1]);
        }
    }
}

/// A request for `/` is answered with status 200 and an empty body, the
/// same bytes whatever headers it carries.
pub proof fn root_ignores_headers(m: Seq<u8>, v: Seq<u8>, rest1: Seq<u8>, rest2: Seq<u8>, base: Seq<u8>)
    requires
        plain_request(m, root_path(), v, rest1),
        plain_request(m, root_path(), v, rest2),
    ensures
        handle_spec(request_bytes(m, root_path(), v, rest1), base) == handle_spec(
            request_bytes(m, root_path(), v, rest2),
            base,
        ),
        handle_spec(request_bytes(m, root_path(), v, rest1), base) == ActionModel::Send(
            response_spec(reply_version(v), StatusCode::Success, seq![], text_plain()),
        ),
{
    raw_request_parses(m, root_path(), v, rest1);
    raw_request_parses(m, root_path(), v, rest2);
}

/// A request for `/<k>`, on no other route, is answered with the value of
/// the first header whose name equals `k` up to ASCII case, with status
/// 200; with status 404 and an empty body when no header matches.
pub proof fn header_is_reflected(m: Seq<u8>, k: Seq<u8>, v: Seq<u8>, rest: Seq<u8>, base: Seq<u8>)
    requires
        plain_request(m, seq![SLASH] + k, v, rest),
        k.len() > 0,
        !starts_with(seq![SLASH] + k, echo_prefix()),
        !starts_with(seq![SLASH] + k, files_prefix()),
    ensures
        handle_spec(request_bytes(m, seq![SLASH] + k, v, rest), base) == match header_lookup(
            parse_headers(rest, 0)->Some_0.0,
            k,
            0,
        ) {
            Some(value) => ActionModel::Send(
                response_spec(reply_version(v), StatusCode::Success, value, text_plain()),
            ),
            None => ActionModel::Send(
                response_spec(reply_version(v), StatusCode::NotFound, seq![], text_plain()),
            ),
        },
{
    let p = seq![SLASH] + k;
    raw_request_parses(m, p, v, rest);
    assert(p.subrange(1, p.len() as int) =~= k);
    assert(reflection_key(p) == k);
    assert(p != root_path()) by {
        assert(p.len() != root_path().len());
    }
}

/// A request whose line is empty still gets a reply of the regular shape:
/// status 200 or 404, a `text/plain` body, and a status line that starts
/// with the version `HTTP/1.1`.
pub proof fn empty_request_line_gets_reply(rest: Seq<u8>, base: Seq<u8>)
    requires
        parse_headers(rest, 0) is Some,
        rest.len() == 0 || rest.last() != 0,
    ensures
        default_version().len() > 0,
        exists|code: StatusCode, body: Seq<u8>|
            (code == StatusCode::Success || code == StatusCode::NotFound) && handle_spec(
                seq![CR, LF] + rest,
                base,
            ) == ActionModel::Send(#[trigger] response_spec(default_version(), code, body, text_plain())),
{
    let pre = seq![CR, LF];
    let data = pre + rest;
    if rest.len() == 0 {
        assert(data.last() == LF);
    } else {
        assert(data.last() == rest.last());
    }
    assert(trim_trailing_nul(data) == data);
    lemma_index_of_at(data, 0, 1, LF);
    assert(crate::request::line_at(data, 0) =~= Seq::<u8>::empty());
    lemma_parse_headers_shift(pre, rest, 0);
    let head = Seq::<u8>::empty();
    lemma_index_of_at(head, 0, 0, SP);
    assert(head.subrange(0, 0) =~= head);
    assert(token(head, 0) == head);
    assert(token_from(head, 0, 1) == Seq::<u8>::empty());
    assert(token_from(head, 0, 2) == Seq::<u8>::empty());
    let q = parse_request(data)->Ok_0;
    assert(q.path == head);
    assert(q.version == head);
    let hs = parse_headers(rest, 0)->Some_0.0;
    match header_lookup(hs, reflection_key(head), 0) {
        Some(value) => {
            assert(handle_spec(data, base) == ActionModel::Send(
                response_spec(default_version(), StatusCode::Success, value, text_plain()),
            ));
        },
        None => {
            assert(handle_spec(data, base) == ActionModel::Send(
                response_spec(default_version(), StatusCode::NotFound, seq![], text_plain()),
            ));
        },
    }
}

} // verus!
