//! Private queries for Merkle paths: which are taken, and what is sent back.
use vstd::prelude::*;
use vstd::string::*;

use crate::api_error::{missing_registration, missing_registration_error, ApiError, ApiFault};
use crate::encoding::{
    base64_bytes, base64_len, base64_text, is_base64_of, is_hex_hash, Base64Error,
};
use crate::layout::{
    layout_is_cut, layout_is_received_as_sent, layout_outcome, layout_received, layout_sent,
    validate_crs_hash_format, LayoutDto, LayoutDtoView, LayoutView, TreePirLayout,
};
use crate::text::{decimal, decimal_text, same_bytes};
use crate::wire::{decode_json_base64, encode_json_base64, json_received, parses, refuses};
use crate::SERVER_DEPTH;

verus! {

/// A query for one level, in the abstract.
pub struct LevelQueryView {
    pub level: usize,
    pub query: Seq<char>,
}

/// A query for one level. It does not tell which node is asked for.
#[derive(Debug, Clone)]
pub struct LevelQueryDto {
    pub level: usize,
    /// The encrypted query.
    pub query_json_base64: String,
}

impl View for LevelQueryDto {
    type V = LevelQueryView;

    open spec fn view(&self) -> LevelQueryView {
        LevelQueryView { level: self.level, query: self.query_json_base64@ }
    }
}

/// Queries in the abstract.
pub open spec fn query_views(list: Seq<LevelQueryDto>) -> Seq<LevelQueryView> {
    list.map_values(|query: LevelQueryDto| query@)
}

/// A query for a path, in the abstract.
pub struct PathQueryView {
    pub crs_hash: Seq<char>,
    pub layout: LayoutDtoView,
    pub levels: Seq<LevelQueryView>,
}

/// A query for a path: one query for each level. It does not tell which leaf the
/// path is of.
#[derive(Debug, Clone)]
pub struct PathQueryRequest {
    pub crs_hash: String,
    pub layout: LayoutDto,
    pub levels: Vec<LevelQueryDto>,
}

impl View for PathQueryRequest {
    type V = PathQueryView;

    open spec fn view(&self) -> PathQueryView {
        PathQueryView {
            crs_hash: self.crs_hash@,
            layout: self.layout@,
            levels: query_views(self.levels@),
        }
    }
}

/// A response for one level, as it is sent. The length of the level is not sent: it
/// is in the layout.
#[derive(Debug, Clone)]
pub struct LevelResponseDto {
    pub level: usize,
    pub response_json_base64: String,
}

/// A response to a query for a path, as it is sent.
#[derive(Debug, Clone)]
pub struct PathQueryResponse {
    pub layout: LayoutDto,
    pub levels: Vec<LevelResponseDto>,
}

/// A response for one level.
#[derive(Debug)]
pub struct TreePirLevelResponse<R> {
    pub level: usize,
    pub level_len: usize,
    pub response: R,
}

/// A response to a query for a path.
#[derive(Debug)]
pub struct TreePirPathResponse<R> {
    pub layout: TreePirLayout,
    pub levels: Vec<TreePirLevelResponse<R>>,
}

/// What is said of the number of levels.
pub open spec fn count_text(what: Seq<char>, n: nat) -> Seq<char> {
    "expected "@ + decimal(SERVER_DEPTH as nat) + " level PIR "@ + what + ", got "@ + decimal(n)
}

/// What is said of a level that stands where another should.
pub open spec fn order_text(what: Seq<char>, position: nat, level: nat) -> Seq<char> {
    "path "@ + what + " levels must be canonical 0.."@ + decimal((SERVER_DEPTH - 1) as nat)
        + "; at position "@ + decimal(position) + ", got level "@ + decimal(level)
}

/// What is said of a level without nodes.
pub open spec fn empty_level_text(level: nat) -> Seq<char> {
    "empty level database at level "@ + decimal(level)
}

fn count_message(what: &str, n: usize) -> (out: String)
    ensures
        out@ == count_text(what@, n as nat),
{
    let mut out = "expected ".to_owned();
    out.append(decimal_text(SERVER_DEPTH as u64).as_str());
    out.append(" level PIR ");
    out.append(what);
    out.append(", got ");
    out.append(decimal_text(n as u64).as_str());
    out
}

fn order_message(what: &str, position: usize, level: usize) -> (out: String)
    ensures
        out@ == order_text(what@, position as nat, level as nat),
{
    let mut out = "path ".to_owned();
    out.append(what);
    out.append(" levels must be canonical 0..");
    out.append(decimal_text(SERVER_DEPTH as u64 - 1).as_str());
    out.append("; at position ");
    out.append(decimal_text(position as u64).as_str());
    out.append(", got level ");
    out.append(decimal_text(level as u64).as_str());
    out
}

/// What is wrong with level `i` of the queries.
pub open spec fn level_fault(
    levels: Seq<LevelQueryView>,
    layout: LayoutView,
    i: int,
) -> Option<ApiFault> {
    if levels[i].level != i {
        Some(
            ApiFault::InvalidPathRequest(
                order_text("request"@, i as nat, levels[i].level as nat),
            ),
        )
    } else if layout.level_lens[i] == 0 {
        Some(ApiFault::InvalidLayout(empty_level_text(i as nat)))
    } else {
        None
    }
}

/// What is wrong with the first level, from level `i` on, that something is wrong
/// with.
pub open spec fn first_fault(
    levels: Seq<LevelQueryView>,
    layout: LayoutView,
    i: nat,
) -> Option<ApiFault>
    decreases levels.len() - i,
{
    if i >= levels.len() {
        None
    } else {
        match level_fault(levels, layout, i as int) {
            Some(fault) => Some(fault),
            None => first_fault(levels, layout, i + 1),
        }
    }
}

/// What is wrong with queries: there has to be one for each level, in order, and no
/// level may be empty.
pub open spec fn shape_fault(levels: Seq<LevelQueryView>, layout: LayoutView) -> Option<ApiFault> {
    if levels.len() != SERVER_DEPTH {
        Some(ApiFault::InvalidPathRequest(count_text("queries"@, levels.len())))
    } else {
        first_fault(levels, layout, 0)
    }
}

/// Refuses queries that are not one for each level, in order.
pub fn validate_level_query_shape(levels: &[LevelQueryDto], layout: &TreePirLayout) -> (out: Result<
    (),
    ApiError,
>)
    ensures
        match out {
            Ok(()) => shape_fault(query_views(levels@), layout@) is None,
            Err(error) => shape_fault(query_views(levels@), layout@) == Some(error@),
        },
{
    if levels.len() != SERVER_DEPTH {
        return Err(ApiError::InvalidPathRequest(count_message("queries", levels.len())));
    }
    let ghost views = query_views(levels@);
    let mut i: usize = 0;
    while i < SERVER_DEPTH
        invariant
            levels@.len() == SERVER_DEPTH,
            views == query_views(levels@),
            i <= SERVER_DEPTH,
            shape_fault(views, layout@) == first_fault(views, layout@, i as nat),
        decreases SERVER_DEPTH - i,
    {
        assert(views[i as int] == levels@[i as int]@);
        if levels[i].level != i {
            return Err(
                ApiError::InvalidPathRequest(order_message("request", i, levels[i].level)),
            );
        }
        if layout.level_lens[i] == 0 {
            let mut why = "empty level database at level ".to_owned();
            why.append(decimal_text(i as u64).as_str());
            return Err(ApiError::InvalidLayout(why));
        }
        i = i + 1;
    }
    Ok(())
}

/// Whether two layouts are the same.
pub fn same_layout(a: &TreePirLayout, b: &TreePirLayout) -> (same: bool)
    ensures
        same == (a@ == b@),
{
    if a.leaf_count != b.leaf_count || !same_bytes(a.root.as_slice(), b.root.as_slice()) {
        return false;
    }
    let mut i: usize = 0;
    while i < SERVER_DEPTH
        invariant
            i <= SERVER_DEPTH,
            forall|k: int| 0 <= k < i ==> a.level_lens@[k] == b.level_lens@[k],
        decreases SERVER_DEPTH - i,
    {
        if a.level_lens[i] != b.level_lens[i] {
            return false;
        }
        i = i + 1;
    }
    assert(a.level_lens@ =~= b.level_lens@);
    true
}

/// Whether a query for a path is taken, and with which layout: it has to come from
/// a client that is registered, be made for the layout that the tree has, and hold
/// a query for each level.
pub open spec fn admitted(request: PathQueryView, registered: bool, current: LayoutView) -> Result<
    LayoutView,
    ApiFault,
> {
    if !is_hex_hash(request.crs_hash) {
        Err(ApiFault::InvalidCrsHash)
    } else {
        match layout_received(request.layout) {
            Err(fault) => Err(fault),
            Ok(layout) => if !registered {
                Err(missing_registration(request.crs_hash))
            } else if current != layout {
                Err(ApiFault::StaleLayout)
            } else {
                match shape_fault(request.levels, layout) {
                    Some(fault) => Err(fault),
                    None => Ok(layout),
                }
            },
        }
    }
}

/// Decides whether a query for a path is taken, given whether its client is
/// registered and which layout the tree has. The queries themselves are not
/// decoded.
pub fn admit_path_query(
    request: &PathQueryRequest,
    registered: bool,
    current: &TreePirLayout,
) -> (out: Result<TreePirLayout, ApiError>)
    requires
        is_hex_hash(request.crs_hash@) ==> layout_is_cut(request.layout@),
    ensures
        layout_outcome(out) == admitted(request@, registered, current@),
{
    validate_crs_hash_format(request.crs_hash.as_str())?;
    let layout = request.layout.to_treepir()?;
    if !registered {
        return Err(missing_registration_error(request.crs_hash.as_str()));
    }
    if !same_layout(current, &layout) {
        return Err(ApiError::StaleLayout);
    }
    validate_level_query_shape(request.levels.as_slice(), &layout)?;
    Ok(layout)
}

/// `outs` is what comes of the first queries, all of which are decoded.
pub open spec fn queries_decoded<T, F: Fn(&[u8]) -> Result<T, String>>(
    levels: Seq<LevelQueryView>,
    parse: F,
    outs: Seq<(usize, T)>,
) -> bool {
    &&& outs.len() <= levels.len()
    &&& forall|i: int|
        #![trigger outs[i]]
        0 <= i < outs.len() ==> outs[i].0 == levels[i].level && json_received(
            levels[i].query,
            parse,
            Ok(outs[i].1),
        )
}

/// Query `i` is the first that is not decoded, and `fault` says why.
pub open spec fn query_refused<T, F: Fn(&[u8]) -> Result<T, String>>(
    levels: Seq<LevelQueryView>,
    parse: F,
    i: int,
    error: ApiError,
) -> bool {
    &&& 0 <= i < levels.len()
    &&& json_received(levels[i].query, parse, Err::<T, ApiError>(error))
    &&& exists|outs: Seq<(usize, T)>| outs.len() == i && #[trigger] queries_decoded(
        levels,
        parse,
        outs,
    )
}

/// Decodes the queries of the levels, where `parse` reads a query from JSON.
pub fn decode_level_queries<T, F: Fn(&[u8]) -> Result<T, String>>(
    levels: &[LevelQueryDto],
    parse: F,
) -> (out: Result<Vec<(usize, T)>, ApiError>)
    requires
        forall|bytes: &[u8]| call_requires(parse, (bytes,)),
    ensures
        match out {
            Ok(outs) => outs@.len() == levels@.len() && queries_decoded(
                query_views(levels@),
                parse,
                outs@,
            ),
            Err(error) => exists|i: int|
                #[trigger] query_refused::<T, F>(query_views(levels@), parse, i, error),
        },
{
    let ghost views = query_views(levels@);
    let mut outs: Vec<(usize, T)> = Vec::new();
    let mut i: usize = 0;
    while i < levels.len()
        invariant
            forall|bytes: &[u8]| call_requires(parse, (bytes,)),
            views == query_views(levels@),
            i <= levels@.len(),
            outs@.len() == i,
            queries_decoded(views, parse, outs@),
        decreases levels@.len() - i,
    {
        assert(views[i as int] == levels@[i as int]@);
        match decode_json_base64(levels[i].query_json_base64.as_str(), &parse) {
            Ok(query) => {
                outs.push((levels[i].level, query));
            },
            Err(error) => {
                assert(query_refused::<T, F>(views, parse, i as int, error));
                return Err(error);
            },
        }
        i = i + 1;
    }
    Ok(outs)
}

/// `out` is what comes of a query for a path: the layout, and the queries of the
/// levels. Those of a query that is not taken are not decoded.
pub open spec fn query_taken<T, F: Fn(&[u8]) -> Result<T, String>>(
    request: PathQueryView,
    registered: bool,
    current: LayoutView,
    parse: F,
    out: Result<(TreePirLayout, Vec<(usize, T)>), ApiError>,
) -> bool {
    match admitted(request, registered, current) {
        Err(fault) => out matches Err(error) && error@ == fault,
        Ok(layout) => match out {
            Ok((taken, queries)) => {
                &&& taken@ == layout
                &&& queries@.len() == request.levels.len()
                &&& queries_decoded(request.levels, parse, queries@)
            },
            Err(error) => exists|i: int|
                #[trigger] query_refused::<T, F>(request.levels, parse, i, error),
        },
    }
}

/// Takes a query for a path, given whether its client is registered and which
/// layout the tree has, where `parse` reads a query from JSON.
pub fn query_path<T, F: Fn(&[u8]) -> Result<T, String>>(
    request: &PathQueryRequest,
    registered: bool,
    current: &TreePirLayout,
    parse: F,
) -> (out: Result<(TreePirLayout, Vec<(usize, T)>), ApiError>)
    requires
        is_hex_hash(request.crs_hash@) ==> layout_is_cut(request.layout@),
        forall|bytes: &[u8]| call_requires(parse, (bytes,)),
    ensures
        query_taken(request@, registered, current@, parse, out),
{
    let layout = admit_path_query(request, registered, current)?;
    let queries = decode_level_queries(request.levels.as_slice(), parse)?;
    Ok((layout, queries))
}

/// The response holds one for each level, in order, each of the length that the
/// layout gives the level.
pub open spec fn canonical<R>(response: TreePirPathResponse<R>) -> bool {
    &&& response.levels@.len() == SERVER_DEPTH
    &&& forall|i: int|
        0 <= i < SERVER_DEPTH ==> (#[trigger] response.levels@[i]).level == i
            && response.levels@[i].level_len == response.layout.level_lens@[i]
}

/// Whether the response holds one for each level, in order, each of the length that
/// the layout gives the level.
pub fn has_core_response_shape<R>(response: &TreePirPathResponse<R>) -> (canon: bool)
    ensures
        canon == canonical(*response),
{
    if response.levels.len() != SERVER_DEPTH {
        return false;
    }
    let mut i: usize = 0;
    while i < SERVER_DEPTH
        invariant
            i <= SERVER_DEPTH,
            response.levels@.len() == SERVER_DEPTH,
            forall|k: int|
                0 <= k < i ==> (#[trigger] response.levels@[k]).level == k
                    && response.levels@[k].level_len == response.layout.level_lens@[k],
        decreases SERVER_DEPTH - i,
    {
        if response.levels[i].level != i || response.levels[i].level_len
            != response.layout.level_lens[i] {
            return false;
        }
        i = i + 1;
    }
    true
}

/// `serialize` may be called, and what it gives fits a string in base64.
pub open spec fn serializes<R, S: Fn(&R) -> Result<Vec<u8>, String>>(serialize: S) -> bool {
    &&& forall|value: &R| call_requires(serialize, (value,))
    &&& forall|value: &R, bytes: Vec<u8>|
        call_ensures(serialize, (value,), Ok::<Vec<u8>, String>(bytes)) ==> base64_len(
            bytes@.len(),
        ) <= isize::MAX
}

/// `dto` is a response for one level as it is sent.
pub open spec fn level_sent<R, S: Fn(&R) -> Result<Vec<u8>, String>>(
    level: TreePirLevelResponse<R>,
    serialize: S,
    dto: LevelResponseDto,
) -> bool {
    &&& dto.level == level.level
    &&& exists|bytes: Vec<u8>|
        #[trigger] call_ensures(serialize, (&level.response,), Ok::<Vec<u8>, String>(bytes))
            && dto.response_json_base64@ == base64_text(bytes@) && is_base64_of(
            dto.response_json_base64@,
            bytes@,
        )
}

/// `dtos` are the first responses as they are sent.
pub open spec fn levels_sent<R, S: Fn(&R) -> Result<Vec<u8>, String>>(
    levels: Seq<TreePirLevelResponse<R>>,
    serialize: S,
    dtos: Seq<LevelResponseDto>,
) -> bool {
    &&& dtos.len() <= levels.len()
    &&& forall|i: int| 0 <= i < dtos.len() ==> level_sent(levels[i], serialize, #[trigger] dtos[i])
}

/// `out` is what comes of sending a response. Where a level has no JSON, the error
/// is that of the first such level.
pub open spec fn response_sent<R, S: Fn(&R) -> Result<Vec<u8>, String>>(
    response: TreePirPathResponse<R>,
    serialize: S,
    out: Result<PathQueryResponse, ApiError>,
) -> bool {
    match out {
        Ok(dto) => {
            &&& dto.layout@ == layout_sent(response.layout@)
            &&& dto.levels@.len() == response.levels@.len()
            &&& levels_sent(response.levels@, serialize, dto.levels@)
        },
        Err(error) => exists|i: int, why: String, dtos: Seq<LevelResponseDto>|
            {
                &&& 0 <= i < response.levels@.len()
                &&& dtos.len() == i
                &&& #[trigger] levels_sent(response.levels@, serialize, dtos)
                &&& #[trigger] call_ensures(
                    serialize,
                    (&response.levels@[i].response,),
                    Err::<Vec<u8>, String>(why),
                )
                &&& error@ == ApiFault::JsonWire(why@)
            },
    }
}

/// `out` is what comes of the response that stands at position `i`.
pub open spec fn level_received<R, P: Fn(&[u8]) -> Result<R, String>>(
    dto: LevelResponseDto,
    i: int,
    level_len: usize,
    parse: P,
    out: Result<TreePirLevelResponse<R>, ApiError>,
) -> bool {
    if dto.level != i {
        out matches Err(error) && error@ == ApiFault::InvalidPathResponse(
            order_text("response"@, i as nat, dto.level as nat),
        )
    } else {
        match out {
            Ok(level) => {
                &&& level.level == i
                &&& level.level_len == level_len
                &&& json_received(dto.response_json_base64@, parse, Ok(level.response))
            },
            Err(error) => json_received(
                dto.response_json_base64@,
                parse,
                Err::<R, ApiError>(error),
            ),
        }
    }
}

/// `outs` is what comes of the first responses, all of which are decoded and stand
/// in order.
pub open spec fn levels_received<R, P: Fn(&[u8]) -> Result<R, String>>(
    dtos: Seq<LevelResponseDto>,
    layout: LayoutView,
    parse: P,
    outs: Seq<TreePirLevelResponse<R>>,
) -> bool {
    &&& outs.len() <= dtos.len()
    &&& forall|i: int|
        0 <= i < outs.len() ==> level_received(
            dtos[i],
            i,
            layout.level_lens[i],
            parse,
            Ok(#[trigger] outs[i]),
        )
}

/// Response `i` is the first that does not stand in order or is not decoded, and
/// `error` says why.
pub open spec fn level_refused<R, P: Fn(&[u8]) -> Result<R, String>>(
    dtos: Seq<LevelResponseDto>,
    layout: LayoutView,
    parse: P,
    i: int,
    error: ApiError,
) -> bool {
    &&& 0 <= i < dtos.len()
    &&& exists|outs: Seq<TreePirLevelResponse<R>>| outs.len() == i && #[trigger] levels_received(
        dtos,
        layout,
        parse,
        outs,
    )
    &&& level_received::<R, P>(dtos[i], i, layout.level_lens[i], parse, Err(error))
}

/// Some response is the first that is refused, with `error`.
pub open spec fn levels_refused<R, P: Fn(&[u8]) -> Result<R, String>>(
    dtos: Seq<LevelResponseDto>,
    layout: LayoutView,
    parse: P,
    error: ApiError,
) -> bool {
    exists|i: int| #[trigger] level_refused::<R, P>(dtos, layout, parse, i, error)
}

/// `out` is what comes of a response that was sent.
pub open spec fn response_received<R, P: Fn(&[u8]) -> Result<R, String>>(
    dto: PathQueryResponse,
    parse: P,
    out: Result<TreePirPathResponse<R>, ApiError>,
) -> bool {
    match layout_received(dto.layout@) {
        Err(fault) => out matches Err(error) && error@ == fault,
        Ok(layout) => if dto.levels@.len() != SERVER_DEPTH {
            out matches Err(error) && error@ == ApiFault::InvalidPathResponse(
                count_text("responses"@, dto.levels@.len()),
            )
        } else {
            match out {
                Ok(response) => {
                    &&& response.layout@ == layout
                    &&& response.levels@.len() == SERVER_DEPTH
                    &&& levels_received(dto.levels@, layout, parse, response.levels@)
                },
                Err(error) => levels_refused::<R, P>(dto.levels@, layout, parse, error),
            }
        },
    }
}

/// The response that stands at position `i`.
fn receive_level<R, P: Fn(&[u8]) -> Result<R, String>>(
    dto: &LevelResponseDto,
    i: usize,
    level_len: usize,
    parse: &P,
) -> (out: Result<TreePirLevelResponse<R>, ApiError>)
    requires
        forall|bytes: &[u8]| call_requires(*parse, (bytes,)),
    ensures
        level_received(*dto, i as int, level_len, *parse, out),
{
    if dto.level != i {
        return Err(ApiError::InvalidPathResponse(order_message("response", i, dto.level)));
    }
    match decode_json_base64(dto.response_json_base64.as_str(), parse) {
        Ok(response) => Ok(TreePirLevelResponse { level: i, level_len, response }),
        Err(error) => Err(error),
    }
}

/// The responses of the levels.
fn receive_levels<R, P: Fn(&[u8]) -> Result<R, String>>(
    dtos: &Vec<LevelResponseDto>,
    layout: &TreePirLayout,
    parse: &P,
) -> (out: Result<Vec<TreePirLevelResponse<R>>, ApiError>)
    requires
        dtos@.len() == SERVER_DEPTH,
        forall|bytes: &[u8]| call_requires(*parse, (bytes,)),
    ensures
        match out {
            Ok(levels) => levels@.len() == SERVER_DEPTH && levels_received(
                dtos@,
                layout@,
                *parse,
                levels@,
            ),
            Err(error) => levels_refused::<R, P>(dtos@, layout@, *parse, error),
        },
{
    let mut levels: Vec<TreePirLevelResponse<R>> = Vec::new();
    let mut i: usize = 0;
    while i < SERVER_DEPTH
        invariant
            dtos@.len() == SERVER_DEPTH,
            forall|bytes: &[u8]| call_requires(*parse, (bytes,)),
            i <= SERVER_DEPTH,
            levels@.len() == i,
            levels_received(dtos@, layout@, *parse, levels@),
        decreases SERVER_DEPTH - i,
    {
        match receive_level(&dtos[i], i, layout.level_lens[i], parse) {
            Ok(level) => {
                levels.push(level);
            },
            Err(error) => {
                assert(level_refused::<R, P>(dtos@, layout@, *parse, i as int, error));
                return Err(error);
            },
        }
        i = i + 1;
    }
    Ok(levels)
}

impl PathQueryResponse {
    /// The response as it is sent, where `serialize` writes a level's response in
    /// JSON.
    pub fn from_treepir<R, S: Fn(&R) -> Result<Vec<u8>, String>>(
        response: &TreePirPathResponse<R>,
        serialize: S,
    ) -> (out: Result<PathQueryResponse, ApiError>)
        requires
            serializes::<R, S>(serialize),
        ensures
            response_sent(*response, serialize, out),
    {
        let mut levels: Vec<LevelResponseDto> = Vec::new();
        let mut i: usize = 0;
        while i < response.levels.len()
            invariant
                serializes::<R, S>(serialize),
                i <= response.levels@.len(),
                levels@.len() == i,
                levels_sent(response.levels@, serialize, levels@),
            decreases response.levels@.len() - i,
        {
            let level = &response.levels[i];
            let serialized = serialize(&level.response);
            match encode_json_base64(serialized) {
                Ok(text) => {
                    let dto = LevelResponseDto { level: level.level, response_json_base64: text };
                    assert(level_sent(*level, serialize, dto));
                    levels.push(dto);
                },
                Err(error) => {
                    let ghost why = serialized->Err_0;
                    assert(call_ensures(
                        serialize,
                        (&response.levels@[i as int].response,),
                        Err::<Vec<u8>, String>(why),
                    ));
                    return Err(error);
                },
            }
            i = i + 1;
        }
        Ok(PathQueryResponse { layout: LayoutDto::from_treepir(&response.layout), levels })
    }

    /// The response that was sent, where `parse` reads a level's response from
    /// JSON.
    pub fn to_treepir<R, P: Fn(&[u8]) -> Result<R, String>>(self, parse: P) -> (out: Result<
        TreePirPathResponse<R>,
        ApiError,
    >)
        requires
            layout_is_cut(self.layout@),
            forall|bytes: &[u8]| call_requires(parse, (bytes,)),
        ensures
            response_received(self, parse, out),
    {
        let layout = self.layout.to_treepir()?;
        if self.levels.len() != SERVER_DEPTH {
            return Err(
                ApiError::InvalidPathResponse(count_message("responses", self.levels.len())),
            );
        }
        let levels = receive_levels(&self.levels, &layout, &parse)?;
        Ok(TreePirPathResponse { layout, levels })
    }
}

/// `parse` reads back what `serialize` writes.
pub open spec fn reads_back<
    R,
    S: Fn(&R) -> Result<Vec<u8>, String>,
    P: Fn(&[u8]) -> Result<R, String>,
>(serialize: S, parse: P) -> bool {
    forall|value: &R, bytes: Vec<u8>, slice: &[u8], parsed: Result<R, String>|
        #[trigger] call_ensures(serialize, (value,), Ok::<Vec<u8>, String>(bytes)) && slice@
            == bytes@ && #[trigger] call_ensures(parse, (slice,), parsed) ==> parsed == Ok::<
            R,
            String,
        >(*value)
}

/// A response for one level that was sent is not refused, and is received as it
/// was.
proof fn lemma_level_received<
    R,
    S: Fn(&R) -> Result<Vec<u8>, String>,
    P: Fn(&[u8]) -> Result<R, String>,
>(
    level: TreePirLevelResponse<R>,
    serialize: S,
    parse: P,
    dto: LevelResponseDto,
    out: Result<R, ApiError>,
)
    requires
        level_sent(level, serialize, dto),
        reads_back(serialize, parse),
        json_received(dto.response_json_base64@, parse, out),
    ensures
        out == Ok::<R, ApiError>(level.response),
{
    let bytes = choose|bytes: Vec<u8>|
        #[trigger] call_ensures(serialize, (&level.response,), Ok::<Vec<u8>, String>(bytes))
            && dto.response_json_base64@ == base64_text(bytes@) && is_base64_of(
            dto.response_json_base64@,
            bytes@,
        );
    assert(base64_bytes(dto.response_json_base64@) == Ok::<Seq<u8>, Base64Error>(bytes@));
    match out {
        Ok(value) => {
            assert(parses(parse, bytes@, value));
        },
        Err(error) => {
            let why = error@->JsonWire_0;
            assert(refuses::<R, P>(parse, bytes@, why));
        },
    }
}

/// A response to a query that is sent is received as it was: the same layout, and
/// for each level the same length and response.
pub proof fn response_is_received_as_sent<
    R,
    S: Fn(&R) -> Result<Vec<u8>, String>,
    P: Fn(&[u8]) -> Result<R, String>,
>(
    response: TreePirPathResponse<R>,
    serialize: S,
    dto: PathQueryResponse,
    parse: P,
    out: Result<TreePirPathResponse<R>, ApiError>,
)
    requires
        canonical(response),
        response_sent(response, serialize, Ok(dto)),
        reads_back(serialize, parse),
        response_received(dto, parse, out),
    ensures
        out matches Ok(received) && received.layout@ == response.layout@ && received.levels@
            == response.levels@,
{
    let layout = response.layout@;
    layout_is_received_as_sent(layout);
    match out {
        Ok(received) => {
            assert forall|i: int| 0 <= i < SERVER_DEPTH implies received.levels@[i]
                == response.levels@[i] by {
                let got = received.levels@[i];
                let sent = response.levels@[i];
                assert(level_sent(sent, serialize, dto.levels@[i]));
                assert(level_received(dto.levels@[i], i, layout.level_lens[i], parse, Ok(got)));
                lemma_level_received(
                    sent,
                    serialize,
                    parse,
                    dto.levels@[i],
                    Ok(got.response),
                );
            }
            assert(received.levels@ =~= response.levels@);
        },
        Err(error) => {
            let i = choose|i: int|
                #[trigger] level_refused::<R, P>(dto.levels@, layout, parse, i, error);
            assert(level_sent(response.levels@[i], serialize, dto.levels@[i]));
            lemma_level_received(
                response.levels@[i],
                serialize,
                parse,
                dto.levels@[i],
                Err(error),
            );
        },
    }
}

/// Whether a query is taken does not depend on what its queries hold, which are
/// not decoded before.
pub proof fn admission_does_not_depend_on_payloads(
    a: PathQueryView,
    b: PathQueryView,
    registered: bool,
    current: LayoutView,
)
    requires
        a.crs_hash == b.crs_hash,
        a.layout == b.layout,
        a.levels.len() == b.levels.len(),
        forall|i: int| 0 <= i < a.levels.len() ==> a.levels[i].level == b.levels[i].level,
    ensures
        admitted(a, registered, current) == admitted(b, registered, current),
{
    match layout_received(a.layout) {
        Ok(layout) => {
            lemma_same_faults(a.levels, b.levels, layout, 0);
        },
        Err(_) => {},
    }
}

proof fn lemma_same_faults(
    a: Seq<LevelQueryView>,
    b: Seq<LevelQueryView>,
    layout: LayoutView,
    i: nat,
)
    requires
        a.len() == b.len(),
        forall|k: int| 0 <= k < a.len() ==> a[k].level == b[k].level,
    ensures
        first_fault(a, layout, i) == first_fault(b, layout, i),
    decreases a.len() - i,
{
    if i < a.len() {
        lemma_same_faults(a, b, layout, i + 1);
    }
}

/// The query is refused, and answered with this HTTP status.
pub open spec fn refused_with(out: Result<LayoutView, ApiFault>, status: u16) -> bool {
    out matches Err(fault) && fault.status() == status
}

/// A well-formed query of a client that is not registered is not authorized; one
/// for another layout than the tree has is in conflict with it. Whatever is wrong
/// with the levels is a bad request.
pub proof fn refused_queries_are_answered(
    request: PathQueryView,
    registered: bool,
    current: LayoutView,
)
    requires
        is_hex_hash(request.crs_hash),
        layout_received(request.layout) is Ok,
    ensures
        !registered ==> refused_with(admitted(request, registered, current), 401),
        registered && layout_received(request.layout)->Ok_0 != current ==> refused_with(
            admitted(request, registered, current),
            409,
        ),
        registered && layout_received(request.layout)->Ok_0 == current ==> match admitted(
            request,
            registered,
            current,
        ) {
            Ok(layout) => layout == current && shape_fault(request.levels, current) is None,
            Err(fault) => fault.status() == 400 && shape_fault(request.levels, current) == Some(
                fault,
            ),
        },
{
    lemma_shape_status(request.levels, current, 0);
}

proof fn lemma_shape_status(levels: Seq<LevelQueryView>, layout: LayoutView, i: nat)
    ensures
        first_fault(levels, layout, i) matches Some(fault) ==> fault.status() == 400,
    decreases levels.len() - i,
{
    if i < levels.len() {
        lemma_shape_status(levels, layout, i + 1);
    }
}

/// A query is taken only where it has exactly one query for each level, in order,
/// and the layout has no empty level.
pub proof fn taken_queries_are_canonical(
    request: PathQueryView,
    registered: bool,
    current: LayoutView,
    i: int,
)
    requires
        admitted(request, registered, current) is Ok,
        0 <= i < SERVER_DEPTH,
    ensures
        registered,
        request.levels.len() == SERVER_DEPTH,
        request.levels[i].level == i,
        current.level_lens[i] > 0,
{
    lemma_no_fault(request.levels, current, 0, i);
}

proof fn lemma_no_fault(levels: Seq<LevelQueryView>, layout: LayoutView, from: nat, i: int)
    requires
        first_fault(levels, layout, from) is None,
        from <= i < levels.len(),
    ensures
        level_fault(levels, layout, i) is None,
    decreases levels.len() - from,
{
    if from < i {
        lemma_no_fault(levels, layout, from + 1, i);
    }
}

/// The query for level `i` is sent as the base64 of `payload`.
pub open spec fn sent_at(request: PathQueryView, i: int, payload: Seq<u8>) -> bool {
    &&& request.levels[i].level == i
    &&& is_base64_of(request.levels[i].query, payload)
}

/// What stands at level `i` of a query that is taken is read from the bytes that
/// were sent for level `i`, and from no others.
pub proof fn each_level_is_read_from_its_own_query<T, F: Fn(&[u8]) -> Result<T, String>>(
    request: PathQueryView,
    registered: bool,
    current: LayoutView,
    parse: F,
    taken: TreePirLayout,
    queries: Vec<(usize, T)>,
    i: int,
)
    requires
        query_taken(request, registered, current, parse, Ok((taken, queries))),
        0 <= i < SERVER_DEPTH,
    ensures
        taken@ == current,
        queries@.len() == SERVER_DEPTH,
        queries@[i].0 == i,
        exists|slice: &[u8]|
            base64_bytes(request.levels[i].query) == Ok::<Seq<u8>, Base64Error>(slice@)
                && #[trigger] call_ensures(parse, (slice,), Ok::<T, String>(queries@[i].1)),
{
    taken_queries_are_canonical(request, registered, current, i);
    let query = queries@[i].1;
    assert(json_received(request.levels[i].query, parse, Ok::<T, ApiError>(query)));
    let bytes = base64_bytes(request.levels[i].query)->Ok_0;
    assert(parses(parse, bytes, query));
}

/// A path query that a registered client makes for the layout that the tree has, with
/// one query for each level, is taken, and each level comes out with the query that
/// was sent for it.
pub proof fn path_query_is_received_as_sent<
    T,
    S: Fn(&T) -> Result<Vec<u8>, String>,
    P: Fn(&[u8]) -> Result<T, String>,
>(
    request: PathQueryView,
    current: LayoutView,
    queries: Seq<T>,
    payloads: Seq<Vec<u8>>,
    serialize: S,
    parse: P,
    out: Result<(TreePirLayout, Vec<(usize, T)>), ApiError>,
)
    requires
        is_hex_hash(request.crs_hash),
        current.root.len() == 32,
        current.level_lens.len() == SERVER_DEPTH,
        forall|i: int| 0 <= i < SERVER_DEPTH ==> (#[trigger] current.level_lens[i]) > 0,
        request.layout == layout_sent(current),
        request.levels.len() == SERVER_DEPTH,
        forall|i: int|
            0 <= i < SERVER_DEPTH ==> sent_at(request, i, (#[trigger] payloads[i])@)
                && call_ensures(serialize, (&queries[i],), Ok::<Vec<u8>, String>(payloads[i])),
        reads_back(serialize, parse),
        query_taken(request, true, current, parse, out),
    ensures
        out matches Ok((layout, received)) && {
            &&& layout@ == current
            &&& received@.len() == SERVER_DEPTH
            &&& forall|i: int|
                0 <= i < SERVER_DEPTH ==> (#[trigger] received@[i]).0 == i && received@[i].1
                    == queries[i]
        },
{
    layout_is_received_as_sent(current);
    assert forall|i: int| 0 <= i < SERVER_DEPTH implies level_fault(
        request.levels,
        current,
        i,
    ) is None by {
        assert(sent_at(request, i, payloads[i]@));
        assert(current.level_lens[i] > 0);
    }
    lemma_all_levels_fine(request.levels, current, 0);
    match out {
        Ok((layout, received)) => {
            assert forall|i: int| 0 <= i < SERVER_DEPTH implies (#[trigger] received@[i]).0 == i
                && received@[i].1 == queries[i] by {
                each_level_is_read_from_its_own_query(
                    request,
                    true,
                    current,
                    parse,
                    layout,
                    received,
                    i,
                );
                let slice = choose|slice: &[u8]|
                    base64_bytes(request.levels[i].query) == Ok::<Seq<u8>, Base64Error>(slice@)
                        && #[trigger] call_ensures(parse, (slice,), Ok::<T, String>(received@[i].1));
                assert(sent_at(request, i, payloads[i]@));
                assert(slice@ == payloads[i]@);
                assert(call_ensures(
                    serialize,
                    (&queries[i],),
                    Ok::<Vec<u8>, String>(payloads[i]),
                ));
            }
        },
        Err(error) => {
            let i = choose|i: int|
                #[trigger] query_refused::<T, P>(request.levels, parse, i, error);
            assert(sent_at(request, i, payloads[i]@));
            assert(json_received(request.levels[i].query, parse, Err::<T, ApiError>(error)));
            let why = error@->JsonWire_0;
            assert(refuses::<T, P>(parse, payloads[i]@, why));
            assert(call_ensures(serialize, (&queries[i],), Ok::<Vec<u8>, String>(payloads[i])));
        },
    }
}

pub(crate) proof fn lemma_all_levels_fine(levels: Seq<LevelQueryView>, layout: LayoutView, from: nat)
    requires
        forall|i: int| from <= i < levels.len() ==> level_fault(levels, layout, i) is None,
    ensures
        first_fault(levels, layout, from) is None,
    decreases levels.len() - from,
{
    if from < levels.len() {
        lemma_all_levels_fine(levels, layout, from + 1);
    }
}

} // verus!
