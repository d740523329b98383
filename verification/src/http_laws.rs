//! What clients are answered.
use vstd::prelude::*;
use vstd::string::*;

use crate::api_error::{ApiError, ErrorResponse, PirError};
use crate::encoding::{base64_bytes, is_base64_of, Base64Error};
use crate::hash_laws::{digit_value, hex_hash_is_64_digits};
use crate::layout::{layout, layout_is_received_as_sent, LayoutDto, LayoutQuery, TreePirLayout};
use crate::path_query::{
    has_core_response_shape, lemma_all_levels_fine, level_fault, path_query_is_received_as_sent,
    queries_decoded, query_path, query_refused, query_views, reads_back,
    refused_queries_are_answered, response_is_received_as_sent, sent_at,
    taken_queries_are_canonical, LevelQueryDto, PathQueryRequest, PathQueryResponse,
    TreePirPathResponse,
};
use crate::registration::{
    register_client, registered_crs, validate_registered_crs_params, PirParams,
    RegisterClientRequest, RegisterClientResponse,
};
use crate::text::occurs_at;
use crate::wire::{decode_bincode_base64, decode_json_base64, parses, refuses};

verus! {

/// The text is 64 hexadecimal digits.
pub open spec fn is_crs_hash(text: Seq<char>) -> bool {
    &&& text.len() == 64
    &&& forall|i: int| 0 <= i < text.len() ==> digit_value(#[trigger] text[i]) is Some
}

/// The error is answered with this HTTP status.
pub open spec fn answered_with(error: ApiError, status: u16) -> bool {
    forall|answer: (u16, ErrorResponse)| #[trigger]
        call_ensures(ApiError::into_response, (&error,), answer) ==> answer.0 == status
}

/// `why` stands at the end of `text`.
pub open spec fn ends_with(text: Seq<char>, why: Seq<char>) -> bool {
    &&& why.len() <= text.len()
    &&& text.subrange(text.len() - why.len(), text.len() as int) == why
}

/// The text says that a layout is stale.
pub open spec fn says_stale(text: Seq<char>) -> bool {
    exists|i: int|
        0 <= i && i + 12 <= text.len() && #[trigger] text.subrange(i, i + 12) == "stale layout"@
}

proof fn lemma_ends(front: Seq<char>, why: Seq<char>)
    ensures
        ends_with(front + why, why),
{
    let text = front + why;
    assert(text.subrange(text.len() - why.len(), text.len() as int) =~= why);
}

/// A client that is not registered is answered so, with status 401 and without its hash;
/// one whose layout is stale is answered with status 409, the same whoever noticed it;
/// any other error is a bad request, status 400, and the answer ends with what was wrong.
pub proof fn errors_are_answered(error: ApiError, answer: (u16, ErrorResponse))
    requires
        call_ensures(ApiError::into_response, (&error,), answer),
    ensures
        match error {
            ApiError::TreePir(PirError::MissingClientRegistration { .. }) => {
                &&& answer.0 == 401
                &&& answer.1.error@ == "missing client registration"@
            },
            ApiError::TreePir(PirError::Inspire { message, display }) => if says_stale(message@) {
                &&& answer.0 == 409
                &&& answer.1.error@ == "stale layout; refresh layout and rebuild PIR query"@
            } else {
                &&& answer.0 == 400
                &&& answer.1.error@ == display@
            },
            ApiError::TreePir(PirError::InvalidIndex(display)) => answer.0 == 400
                && answer.1.error@ == display@,
            ApiError::TreePir(PirError::InvalidLevel(display)) => answer.0 == 400
                && answer.1.error@ == display@,
            ApiError::TreePir(PirError::InvalidRequest(display)) => answer.0 == 400
                && answer.1.error@ == display@,
            ApiError::TreePir(PirError::Other(display)) => answer.0 == 400 && answer.1.error@
                == display@,
            ApiError::StaleLayout => {
                &&& answer.0 == 409
                &&& answer.1.error@ == "stale layout; refresh layout and rebuild PIR query"@
            },
            ApiError::InvalidCrsHash => answer.0 == 400 && answer.1.error@ == "invalid CRS hash"@,
            ApiError::InvalidLayout(why) => answer.0 == 400 && ends_with(answer.1.error@, why@),
            ApiError::InvalidClientCrs(why) => answer.0 == 400 && ends_with(answer.1.error@, why@),
            ApiError::InvalidPathRequest(why) => answer.0 == 400 && ends_with(answer.1.error@, why@),
            ApiError::InvalidPathResponse(why) => answer.0 == 400 && ends_with(answer.1.error@, why@),
            ApiError::Base64(why) => answer.0 == 400 && ends_with(answer.1.error@, why@),
            ApiError::Bincode(why) => answer.0 == 400 && ends_with(answer.1.error@, why@),
            ApiError::JsonWire(why) => answer.0 == 400 && ends_with(answer.1.error@, why@),
        },
{
    reveal_strlit("stale layout");
    let word = "stale layout"@;
    match error {
        ApiError::TreePir(PirError::Inspire { message, .. }) => {
            if says_stale(message@) {
                let i = choose|i: int|
                    0 <= i && i + 12 <= message@.len() && #[trigger] message@.subrange(i, i + 12)
                        == word;
                assert(occurs_at(word, message@, i));
            }
            if exists|i: int| #[trigger] occurs_at(word, message@, i) {
                let i = choose|i: int| #[trigger] occurs_at(word, message@, i);
                assert(message@.subrange(i, i + 12) == word);
            }
        },
        ApiError::InvalidLayout(why) => lemma_ends("invalid layout: "@, why@),
        ApiError::InvalidClientCrs(why) => lemma_ends("invalid client CRS: "@, why@),
        ApiError::InvalidPathRequest(why) => lemma_ends("invalid path request: "@, why@),
        ApiError::InvalidPathResponse(why) => lemma_ends("invalid path response: "@, why@),
        ApiError::Base64(why) => lemma_ends("invalid base64: "@, why@),
        ApiError::Bincode(why) => lemma_ends("invalid bincode: "@, why@),
        ApiError::JsonWire(why) => lemma_ends("invalid json wire payload: "@, why@),
        _ => {},
    }
}

/// The layout is answered if and only if the client is registered and names a CRS hash
/// of 64 hexadecimal digits. What is answered is received as the layout of the tree. A
/// hash that is none is a bad request; a client that names none or is not registered is
/// not authorized.
pub proof fn layout_requests_are_answered(
    query: LayoutQuery,
    registered: bool,
    current: TreePirLayout,
    out: Result<LayoutDto, ApiError>,
    received: Result<TreePirLayout, ApiError>,
)
    requires
        call_ensures(layout, (&query, registered, &current), out),
        out matches Ok(dto) ==> call_ensures(LayoutDto::to_treepir, (&dto,), received),
    ensures
        out is Ok <==> registered && query.crs_hash is Some && is_crs_hash(query.crs_hash->0@),
        out is Ok ==> (received matches Ok(got) && got@ == current@),
        out matches Err(error) ==> answered_with(
            error,
            if query.crs_hash is Some && !is_crs_hash(query.crs_hash->0@) {
                400
            } else {
                401
            },
        ),
{
    layout_is_received_as_sent(current@);
    match query.crs_hash {
        Some(hash) => hex_hash_is_64_digits(hash@),
        None => {},
    }
}

/// The queries are one for each level of the tree, in order.
pub open spec fn well_formed(levels: Seq<LevelQueryDto>) -> bool {
    &&& levels.len() == 45
    &&& forall|i: int| 0 <= i < 45 ==> (#[trigger] levels[i]).level == i
}

/// No level is empty.
pub open spec fn no_empty_level(current: TreePirLayout) -> bool {
    forall|i: int| 0 <= i < 45 ==> (#[trigger] current.level_lens@[i]) > 0
}

/// A path query is taken only from a registered client, for the layout that the tree has,
/// with one query for each of the 45 levels, in order. Any other is refused: as a bad
/// request where its hash is none, as not authorized where the client is not registered,
/// as in conflict where the layout is another one, and as a bad request where the levels
/// are not well-formed.
pub proof fn path_queries_are_answered<T, F: Fn(&[u8]) -> Result<T, String>>(
    request: PathQueryRequest,
    asked: TreePirLayout,
    dto: LayoutDto,
    registered: bool,
    current: TreePirLayout,
    parse: F,
    out: Result<(TreePirLayout, Vec<(usize, T)>), ApiError>,
)
    requires
        call_ensures(LayoutDto::from_treepir, (&asked,), dto),
        request.layout@ == dto@,
        call_ensures(query_path::<T, F>, (&request, registered, &current, parse), out),
    ensures
        !is_crs_hash(request.crs_hash@) ==> (out matches Err(error) && answered_with(error, 400)),
        is_crs_hash(request.crs_hash@) && !registered ==> (out matches Err(error) && answered_with(
            error,
            401,
        )),
        is_crs_hash(request.crs_hash@) && registered && asked@ != current@ ==> (
        out matches Err(error) && answered_with(error, 409)),
        is_crs_hash(request.crs_hash@) && registered && asked@ == current@ && !(well_formed(
            request.levels@,
        ) && no_empty_level(current)) ==> (out matches Err(error) && answered_with(error, 400)),
        out matches Ok((taken, queries)) ==> {
            &&& is_crs_hash(request.crs_hash@)
            &&& registered
            &&& asked@ == current@
            &&& taken@ == current@
            &&& well_formed(request.levels@)
            &&& no_empty_level(current)
            &&& queries@.len() == 45
        },
{
    hex_hash_is_64_digits(request.crs_hash@);
    layout_is_received_as_sent(asked@);
    if is_crs_hash(request.crs_hash@) {
        refused_queries_are_answered(request@, registered, current@);
    }
    let views = query_views(request.levels@);
    assert forall|i: int| 0 <= i < request.levels@.len() implies views[i].level == (
    #[trigger] request.levels@[i]).level by {}
    match out {
        Ok((taken, queries)) => {
            assert forall|i: int| 0 <= i < 45 implies (#[trigger] request.levels@[i]).level == i by {
                taken_queries_are_canonical(request@, registered, current@, i);
            }
            assert forall|i: int| 0 <= i < 45 implies (#[trigger] current.level_lens@[i]) > 0 by {
                taken_queries_are_canonical(request@, registered, current@, i);
            }
            taken_queries_are_canonical(request@, registered, current@, 0);
        },
        Err(error) => {
            if is_crs_hash(request.crs_hash@) && registered && asked@ == current@ && !(
            well_formed(request.levels@) && no_empty_level(current)) {
                if crate::path_query::admitted(request@, registered, current@) is Ok {
                    assert forall|i: int| 0 <= i < 45 implies (
                    #[trigger] request.levels@[i]).level == i by {
                        taken_queries_are_canonical(request@, registered, current@, i);
                    }
                    assert forall|i: int| 0 <= i < 45 implies (
                    #[trigger] current.level_lens@[i]) > 0 by {
                        taken_queries_are_canonical(request@, registered, current@, i);
                    }
                    taken_queries_are_canonical(request@, registered, current@, 0);
                }
            }
        },
    }
}

/// A path query that a registered client makes for the layout that the tree has, with a
/// query for each level, each sent as the base64 of its serialized bytes, comes out with
/// exactly the queries that were sent, each at its level.
pub proof fn path_query_comes_out_as_sent<
    T,
    S: Fn(&T) -> Result<Vec<u8>, String>,
    P: Fn(&[u8]) -> Result<T, String>,
>(
    request: PathQueryRequest,
    current: TreePirLayout,
    dto: LayoutDto,
    queries: Seq<T>,
    payloads: Seq<Vec<u8>>,
    serialize: S,
    parse: P,
    out: Result<(TreePirLayout, Vec<(usize, T)>), ApiError>,
)
    requires
        is_crs_hash(request.crs_hash@),
        call_ensures(LayoutDto::from_treepir, (&current,), dto),
        request.layout@ == dto@,
        well_formed(request.levels@),
        no_empty_level(current),
        forall|i: int|
            0 <= i < 45 ==> is_base64_of(
                (#[trigger] request.levels@[i]).query_json_base64@,
                payloads[i]@,
            ) && call_ensures(serialize, (&queries[i],), Ok::<Vec<u8>, String>(payloads[i])),
        reads_back(serialize, parse),
        call_ensures(query_path::<T, P>, (&request, true, &current, parse), out),
    ensures
        out matches Ok((layout, received)) && {
            &&& layout@ == current@
            &&& received@.len() == 45
            &&& forall|i: int|
                0 <= i < 45 ==> (#[trigger] received@[i]).0 == i && received@[i].1 == queries[i]
        },
{
    hex_hash_is_64_digits(request.crs_hash@);
    let views = query_views(request.levels@);
    assert forall|i: int| 0 <= i < 45 implies sent_at(request@, i, (#[trigger] payloads[i])@)
        && call_ensures(serialize, (&queries[i],), Ok::<Vec<u8>, String>(payloads[i])) by {
        assert(views[i] == request.levels@[i]@);
        assert(request.levels@[i].level == i);
    }
    path_query_is_received_as_sent(
        request@,
        current@,
        queries,
        payloads,
        serialize,
        parse,
        out,
    );
}

/// A response that holds one for each level, in order, each of the length that the layout
/// gives the level, has the shape of a response; any other has not.
pub proof fn shape_is_one_response_for_each_level<R>(response: TreePirPathResponse<R>, shape: bool)
    requires
        call_ensures(has_core_response_shape::<R>, (&response,), shape),
    ensures
        shape <==> response.levels@.len() == 45 && forall|i: int|
            0 <= i < 45 ==> (#[trigger] response.levels@[i]).level == i
                && response.levels@[i].level_len == response.layout.level_lens@[i],
{
}

/// A response that is sent is received as it was: the layout, and for each level its
/// number, its length and its response.
pub proof fn response_comes_out_as_sent<
    R,
    S: Fn(&R) -> Result<Vec<u8>, String>,
    P: Fn(&[u8]) -> Result<R, String>,
>(
    response: TreePirPathResponse<R>,
    serialize: S,
    dto: PathQueryResponse,
    parse: P,
    out: Result<TreePirPathResponse<R>, ApiError>,
)
    requires
        call_ensures(has_core_response_shape::<R>, (&response,), true),
        call_ensures(PathQueryResponse::from_treepir::<R, S>, (&response, serialize), Ok(dto)),
        reads_back(serialize, parse),
        call_ensures(PathQueryResponse::to_treepir::<R, P>, (dto, parse), out),
    ensures
        out matches Ok(received) && {
            &&& received.layout@ == response.layout@
            &&& received.levels@.len() == 45
            &&& forall|i: int|
                0 <= i < 45 ==> (#[trigger] received.levels@[i]) == response.levels@[i]
        },
        dto.levels@.len() == 45,
        forall|i: int| 0 <= i < 45 ==> (#[trigger] dto.levels@[i]).level == i,
{
    response_is_received_as_sent(response, serialize, dto, parse, out);
    assert forall|i: int| 0 <= i < 45 implies (#[trigger] dto.levels@[i]).level == i by {
        assert(response.levels@[i].level == i);
    }
}

/// A response with another number of levels, or with a level out of order, is refused.
pub proof fn misshapen_responses_are_refused<R, P: Fn(&[u8]) -> Result<R, String>>(
    dto: PathQueryResponse,
    parse: P,
    out: Result<TreePirPathResponse<R>, ApiError>,
)
    requires
        call_ensures(PathQueryResponse::to_treepir::<R, P>, (dto, parse), out),
        dto.levels@.len() != 45 || exists|i: int|
            0 <= i < dto.levels@.len() && (#[trigger] dto.levels@[i]).level != i,
    ensures
        out is Err,
{
    match out {
        Ok(response) => {
            if dto.levels@.len() == 45 {
                let i = choose|i: int|
                    0 <= i < dto.levels@.len() && (#[trigger] dto.levels@[i]).level != i;
                assert(crate::path_query::level_received(
                    dto.levels@[i],
                    i,
                    response.layout@.level_lens[i],
                    parse,
                    Ok(response.levels@[i]),
                ));
            }
        },
        Err(_) => {},
    }
}

/// The parameters are the same in all but how the deviation of the noise is written.
pub open spec fn same_params(a: PirParams, b: PirParams) -> bool {
    &&& a.ring_dim == b.ring_dim
    &&& a.q == b.q
    &&& a.crt_moduli@ == b.crt_moduli@
    &&& a.p == b.p
    &&& a.sigma_bits == b.sigma_bits
    &&& a.gadget_base == b.gadget_base
    &&& a.gadget_len == b.gadget_len
    &&& a.security_level@ == b.security_level@
}

/// Parameters are taken if and only if they are those of the server; others are a bad
/// request.
pub proof fn params_have_to_be_the_servers(
    got: PirParams,
    expected: PirParams,
    out: Result<(), ApiError>,
)
    requires
        call_ensures(validate_registered_crs_params, (&got, &expected), out),
    ensures
        out is Ok <==> same_params(got, expected),
        out matches Err(error) ==> answered_with(error, 400),
{
}

/// A CRS that is sent as the base64 of its serialized bytes is handed on as it was where
/// its parameters are those of the server, and refused as a bad request where they are
/// not.
pub proof fn client_is_taken_with_the_servers_params<
    C,
    S: Fn(&C) -> Result<Vec<u8>, String>,
    P: Fn(&[u8]) -> Result<C, String>,
    V: Fn(&C) -> PirParams,
>(
    request: RegisterClientRequest,
    crs: C,
    payload: Vec<u8>,
    params: PirParams,
    serialize: S,
    parse: P,
    params_of: V,
    expected: PirParams,
    out: Result<C, ApiError>,
)
    requires
        is_base64_of(request.crs_bincode_base64@, payload@),
        call_ensures(serialize, (&crs,), Ok::<Vec<u8>, String>(payload)),
        reads_back(serialize, parse),
        forall|got: PirParams| #[trigger]
            call_ensures(params_of, (&crs,), got) ==> got@ == params@,
        call_ensures(registered_crs::<C, P, V>, (&request, parse, params_of, &expected), out),
    ensures
        same_params(params, expected) ==> out == Ok::<C, ApiError>(crs),
        !same_params(params, expected) ==> (out matches Err(error) && answered_with(error, 400)),
{
    let text = request.crs_bincode_base64@;
    let decoded = choose|decoded: Result<C, ApiError>|
        #[trigger] crate::wire::bincode_received(text, parse, decoded) && match decoded {
            Ok(got) => crate::registration::crs_checked(got, params_of, expected@, out),
            Err(fault) => out matches Err(error) && error@ == fault@,
        };
    assert(base64_bytes(text) == Ok::<Seq<u8>, Base64Error>(payload@));
    match decoded {
        Ok(got) => {
            assert(parses(parse, payload@, got));
        },
        Err(fault) => {
            let why = fault@->Bincode_0;
            assert(refuses::<C, P>(parse, payload@, why));
        },
    }
}

/// A client that was registered is told its hash; one that was not is told why.
pub proof fn registered_clients_are_told_their_hash(
    registered: Result<String, PirError>,
    out: Result<RegisterClientResponse, ApiError>,
)
    requires
        call_ensures(register_client, (registered,), out),
    ensures
        match registered {
            Ok(hash) => out matches Ok(response) && response.registered && response.crs_hash@
                == hash@,
            Err(why) => out matches Err(ApiError::TreePir(error)) && error@ == why@,
        },
{
}

/// Bytes that are sent in base64 as JSON or bincode reach the parser as they were: what
/// it reads of them comes out, and where it refuses them so does the reading, as a bad
/// request.
pub proof fn payloads_reach_the_parser<T, F: Fn(&[u8]) -> Result<T, String>>(
    text: &str,
    bytes: Seq<u8>,
    parse: F,
    json: Result<T, ApiError>,
    bincode: Result<T, ApiError>,
)
    requires
        is_base64_of(text@, bytes),
        call_ensures(decode_json_base64::<T, F>, (text, parse), json),
        call_ensures(decode_bincode_base64::<T, F>, (text, parse), bincode),
    ensures
        json matches Ok(value) ==> exists|slice: &[u8]|
            slice@ == bytes && #[trigger] call_ensures(parse, (slice,), Ok::<T, String>(value)),
        bincode matches Ok(value) ==> exists|slice: &[u8]|
            slice@ == bytes && #[trigger] call_ensures(parse, (slice,), Ok::<T, String>(value)),
        json matches Err(error) ==> answered_with(error, 400) && exists|slice: &[u8], why: String|
            slice@ == bytes && #[trigger] call_ensures(parse, (slice,), Err::<T, String>(why)),
        bincode matches Err(error) ==> answered_with(error, 400) && exists|
            slice: &[u8],
            why: String,
        |
            slice@ == bytes && #[trigger] call_ensures(parse, (slice,), Err::<T, String>(why)),
{
    assert(base64_bytes(text@) == Ok::<Seq<u8>, Base64Error>(bytes));
    match json {
        Ok(value) => {
            assert(parses(parse, bytes, value));
        },
        Err(error) => {
            assert(refuses::<T, F>(parse, bytes, error@->JsonWire_0));
        },
    }
    match bincode {
        Ok(value) => {
            assert(parses(parse, bytes, value));
        },
        Err(error) => {
            assert(refuses::<T, F>(parse, bytes, error@->Bincode_0));
        },
    }
}

/// A text that is not base64 is refused as a bad request, whatever the parser would say.
pub proof fn payloads_have_to_be_base64<T, F: Fn(&[u8]) -> Result<T, String>>(
    text: &str,
    parse: F,
    json: Result<T, ApiError>,
    bincode: Result<T, ApiError>,
)
    requires
        base64_bytes(text@) is Err,
        call_ensures(decode_json_base64::<T, F>, (text, parse), json),
        call_ensures(decode_bincode_base64::<T, F>, (text, parse), bincode),
    ensures
        json matches Err(error) && answered_with(error, 400),
        bincode matches Err(error) && answered_with(error, 400),
{
}

/// The query at position `i` is read.
pub open spec fn is_read<T, F: Fn(&[u8]) -> Result<T, String>>(
    request: PathQueryRequest,
    parse: F,
    i: int,
) -> bool {
    exists|slice: &[u8], query: T|
        base64_bytes(request.levels@[i].query_json_base64@) == Ok::<Seq<u8>, Base64Error>(slice@)
            && #[trigger] call_ensures(parse, (slice,), Ok::<T, String>(query))
}

/// The query at position `i` is not read, and the error says why.
pub open spec fn is_refused_with<T, F: Fn(&[u8]) -> Result<T, String>>(
    request: PathQueryRequest,
    parse: F,
    i: int,
    error: ApiError,
) -> bool {
    match base64_bytes(request.levels@[i].query_json_base64@) {
        Err(_) => error is Base64,
        Ok(bytes) => error matches ApiError::JsonWire(told) && exists|slice: &[u8], why: String|
            slice@ == bytes && told@ == why@ && #[trigger] call_ensures(
                parse,
                (slice,),
                Err::<T, String>(why),
            ),
    }
}

/// A path query that is well-formed is refused only where a query of its is not read, with
/// the first such query and as a bad request.
pub proof fn first_query_that_is_not_read_is_told<T, F: Fn(&[u8]) -> Result<T, String>>(
    request: PathQueryRequest,
    current: TreePirLayout,
    dto: LayoutDto,
    parse: F,
    error: ApiError,
)
    requires
        is_crs_hash(request.crs_hash@),
        call_ensures(LayoutDto::from_treepir, (&current,), dto),
        request.layout@ == dto@,
        well_formed(request.levels@),
        no_empty_level(current),
        call_ensures(
            query_path::<T, F>,
            (&request, true, &current, parse),
            Err::<(TreePirLayout, Vec<(usize, T)>), ApiError>(error),
        ),
    ensures
        answered_with(error, 400),
        exists|i: int|
            {
                &&& 0 <= i < 45
                &&& #[trigger] is_refused_with::<T, F>(request, parse, i, error)
                &&& forall|j: int| 0 <= j < i ==> #[trigger] is_read::<T, F>(request, parse, j)
            },
{
    hex_hash_is_64_digits(request.crs_hash@);
    layout_is_received_as_sent(current@);
    let views = query_views(request.levels@);
    assert forall|i: int| 0 <= i < 45 implies level_fault(views, current@, i) is None by {
        assert(views[i] == request.levels@[i]@);
        assert(request.levels@[i].level == i);
        assert(current.level_lens@[i] > 0);
    }
    lemma_all_levels_fine(views, current@, 0);
    let i = choose|i: int| #[trigger] query_refused::<T, F>(views, parse, i, error);
    assert(views[i] == request.levels@[i]@);
    let outs = choose|outs: Seq<(usize, T)>|
        outs.len() == i && #[trigger] queries_decoded(views, parse, outs);
    assert forall|j: int| 0 <= j < i implies #[trigger] is_read::<T, F>(request, parse, j) by {
        assert(views[j] == request.levels@[j]@);
        let query = outs[j].1;
        let bytes = base64_bytes(views[j].query)->Ok_0;
        assert(parses(parse, bytes, query));
        let slice = choose|slice: &[u8]|
            slice@ == bytes && #[trigger] call_ensures(parse, (slice,), Ok::<T, String>(query));
        assert(call_ensures(parse, (slice,), Ok::<T, String>(query)));
    }
    match base64_bytes(views[i].query) {
        Ok(bytes) => {
            let told = error@->JsonWire_0;
            assert(refuses::<T, F>(parse, bytes, told));
        },
        Err(_) => {},
    }
    assert(is_refused_with::<T, F>(request, parse, i, error));
}

} // verus!
