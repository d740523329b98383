//! What the parts of answers are, in particular.
use vstd::prelude::*;
use vstd::string::*;
use vstd::utf8::*;

use crate::api_error::ApiError;
use crate::encoding::{hex_encode, is_base64_of, pair_at, pair_bytes, pair_ends, TreeHash};
use crate::events::{names_text, quoted_names};
use crate::hash_laws::{lemma_writes_hex, lower_case_is_hex, writes_hex};
use crate::json::{quoted, Json};
use crate::layout::{
    health, hex_decode_32, ready, HealthResponse, LayoutDto, LayoutView, ReadyResponse,
    TreePirLayout,
};
use crate::ledger_events::{operation_event_id, soroban_event_id};
use crate::path_query::{
    first_fault, level_fault, level_sent, query_views, validate_level_query_shape, LevelQueryDto,
    LevelQueryView, PathQueryResponse, TreePirPathResponse,
};
use crate::registration::{validate_registered_crs_params, PirParams};
use crate::text::{decimal, decimal_text, digit_char};

verus! {

/// The server says that it is up, and which one it is.
pub proof fn server_says_that_it_is_up(out: HealthResponse)
    requires
        call_ensures(health, (), out),
    ensures
        out.ok,
        out.service@ == "stellar-mixer-treepir-server"@,
{
}

/// A server that is ready tells the depth of its tree, the number of its leaves, and its
/// root in hexadecimal.
pub proof fn ready_server_tells_its_tree(leaf_count: usize, root: TreeHash, out: ReadyResponse)
    requires
        call_ensures(ready, (leaf_count, &root), out),
    ensures
        out.ready,
        out.depth == 45,
        out.leaf_count == leaf_count,
        writes_hex(out.root_hex@, root@),
{
    lower_case_is_hex(root@);
}

/// A hash is written in 64 hexadecimal digits, and letters among them are small.
pub proof fn hashes_are_written_in_small_letters(hash: TreeHash, out: String)
    requires
        call_ensures(hex_encode, (&hash,), out),
    ensures
        out@.len() == 64,
        writes_hex(out@, hash@),
        forall|i: int|
            0 <= i < 64 ==> ('0' <= (#[trigger] out@[i]) <= '9' || 'a' <= out@[i] <= 'f'),
{
    lower_case_is_hex(hash@);
    assert forall|i: int| 0 <= i < 64 implies ('0' <= (#[trigger] out@[i]) <= '9' || 'a' <= out@[i]
        <= 'f') by {
        assert(hash@[i / 2] as int / 16 < 16);
    }
}

/// A root is read from 64 hexadecimal digits, of either case, as what they write; text of
/// another length is refused, with its length.
pub proof fn roots_are_read_from_digits(text: &str, root: Seq<u8>, out: Result<TreeHash, ApiError>)
    requires
        call_ensures(hex_decode_32, (text,), out),
    ensures
        root.len() == 32 && writes_hex(text@, root) ==> (out matches Ok(hash) && hash@ == root),
        encode_utf8(text@).len() != 64 ==> (out matches Err(ApiError::InvalidLayout(why)) && why@
            == "expected 64 hex chars for root, got "@ + decimal(encode_utf8(text@).len())),
{
    if root.len() == 32 && writes_hex(text@, root) {
        lemma_writes_hex(text@, root);
        let s = encode_utf8(text@);
        assert forall|i: int| 0 <= i < 32 implies (#[trigger] pair_at(s, i)) == Some(root[i]) by {
            assert(crate::encoding::hex_value(s[2 * i]) is Some);
            assert(crate::encoding::hex_value(s[2 * i + 1]) is Some);
            let bytes = crate::encoding::hex_bytes(s)->0;
            assert(bytes[i] == root[i]);
        }
        assert(pair_bytes(s)->0 =~= root);
    }
}

/// A layout with another number of levels is refused, with that number.
pub proof fn layouts_have_all_levels(dto: LayoutDto, out: Result<TreePirLayout, ApiError>)
    requires
        call_ensures(LayoutDto::to_treepir, (&dto,), out),
        dto.level_lens@.len() != 45,
    ensures
        out matches Err(ApiError::InvalidLayout(why)) && why@ == "expected "@ + decimal(45)
            + " level lengths, got "@ + decimal(dto.level_lens@.len()),
{
}

/// Numbers are written without zeros in front.
pub proof fn numbers_have_no_zeros_in_front(n: u64, out: String)
    requires
        call_ensures(decimal_text, (n,), out),
    ensures
        out@.len() > 0,
        n > 0 ==> out@[0] != '0',
        n < 10 ==> out@.len() == 1,
{
    lemma_no_zeros(n as nat);
}

proof fn lemma_no_zeros(n: nat)
    ensures
        decimal(n).len() > 0,
        n > 0 ==> decimal(n)[0] != '0',
    decreases n,
{
    if n >= 10 {
        lemma_no_zeros(n / 10);
        assert(decimal(n) == decimal(n / 10).push(digit_char((n % 10) as int)));
        assert(decimal(n)[0] == decimal(n / 10)[0]);
    }
}

/// The id of an event names its ledger, its transaction, its operation if it has one, and
/// its number.
pub proof fn ids_name_the_place(ledger: nat, tx: nat, op: nat, event: nat)
    ensures
        soroban_event_id(ledger, tx, event) == "ledger-meta:"@ + decimal(ledger) + ":tx:"@ + decimal(
            tx,
        ) + ":soroban:"@ + decimal(event),
        operation_event_id(ledger, tx, op, event) == "ledger-meta:"@ + decimal(ledger) + ":tx:"@
            + decimal(tx) + ":op:"@ + decimal(op) + ":event:"@ + decimal(event),
{
}

/// Position `i` is the first where a query of another level stands, or one for an empty
/// level.
pub open spec fn first_wrong(levels: Seq<LevelQueryDto>, layout: TreePirLayout, i: int) -> bool {
    &&& 0 <= i < levels.len()
    &&& levels[i].level != i || layout.level_lens@[i] == 0
    &&& forall|j: int|
        0 <= j < i ==> (#[trigger] levels[j]).level == j && layout.level_lens@[j] > 0
}

proof fn lemma_first_fault(levels: Seq<LevelQueryView>, layout: LayoutView, from: nat, i: int)
    requires
        from <= i < levels.len(),
        level_fault(levels, layout, i) is Some,
        forall|j: int| from <= j < i ==> level_fault(levels, layout, j) is None,
    ensures
        first_fault(levels, layout, from) == level_fault(levels, layout, i),
    decreases i - from,
{
    if from < i {
        lemma_first_fault(levels, layout, from + 1, i);
    }
}

/// Queries that are not one for each level are refused with their number; others with the
/// first position where a query of another level stands, or with the first empty level.
pub proof fn refused_queries_are_told_where(
    levels: &[LevelQueryDto],
    layout: TreePirLayout,
    i: int,
    out: Result<(), ApiError>,
)
    requires
        call_ensures(validate_level_query_shape, (levels, &layout), out),
    ensures
        levels@.len() != 45 ==> (out matches Err(ApiError::InvalidPathRequest(why)) && why@
            == "expected "@ + decimal(45) + " level PIR queries, got "@ + decimal(levels@.len())),
        levels@.len() == 45 && first_wrong(levels@, layout, i) && levels@[i].level != i ==> (
        out matches Err(ApiError::InvalidPathRequest(why)) && why@
            == "path request levels must be canonical 0.."@ + decimal(44) + "; at position "@
            + decimal(i as nat) + ", got level "@ + decimal(levels@[i].level as nat)),
        levels@.len() == 45 && first_wrong(levels@, layout, i) && levels@[i].level == i ==> (
        out matches Err(ApiError::InvalidLayout(why)) && why@ == "empty level database at level "@
            + decimal(i as nat)),
{
    let views = query_views(levels@);
    if levels@.len() != 45 {
        reveal_strlit(" level PIR ");
        reveal_strlit("queries");
        reveal_strlit(", got ");
        reveal_strlit(" level PIR queries, got ");
        assert(" level PIR "@ + "queries"@ + ", got "@ =~= " level PIR queries, got "@);
        let (a, n) = ("expected "@ + decimal(45), decimal(levels@.len()));
        assert(a + " level PIR "@ + "queries"@ + ", got "@ + n =~= a + (" level PIR "@ + "queries"@
            + ", got "@) + n);
    } else if first_wrong(levels@, layout, i) {
        assert(views[i] == levels@[i]@);
        assert forall|j: int| 0 <= j < i implies level_fault(views, layout@, j) is None by {
            assert(views[j] == levels@[j]@);
            assert(levels@[j].level == j);
        }
        lemma_first_fault(views, layout@, 0, i);
        reveal_strlit("path ");
        reveal_strlit("request");
        reveal_strlit(" levels must be canonical 0..");
        reveal_strlit("path request levels must be canonical 0..");
        assert("path "@ + "request"@ + " levels must be canonical 0.."@
            =~= "path request levels must be canonical 0.."@);
    }
}

/// Parameters that are not the server's are refused with the first that is not.
pub proof fn refused_params_are_told_which(
    got: PirParams,
    expected: PirParams,
    why: String,
)
    requires
        call_ensures(
            validate_registered_crs_params,
            (&got, &expected),
            Err::<(), ApiError>(ApiError::InvalidClientCrs(why)),
        ),
    ensures
        why@ == if got.ring_dim != expected.ring_dim {
            "ring_dim"@ + " mismatch: expected "@ + decimal(expected.ring_dim as nat) + ", got "@
                + decimal(got.ring_dim as nat)
        } else if got.q != expected.q {
            "q mismatch"@
        } else if got.crt_moduli@ != expected.crt_moduli@ {
            "crt_moduli mismatch"@
        } else if got.p != expected.p {
            "p mismatch"@
        } else if got.sigma_bits != expected.sigma_bits {
            "sigma"@ + " mismatch: expected "@ + expected.sigma@ + ", got "@ + got.sigma@
        } else if got.gadget_base != expected.gadget_base {
            "gadget_base mismatch"@
        } else if got.gadget_len != expected.gadget_len {
            "gadget_len mismatch"@
        } else {
            "security_level mismatch"@
        },
{
}

/// A layout is sent with the number of leaves, the root in hexadecimal and the lengths of
/// the levels in order.
pub proof fn layouts_are_sent_as_they_are(layout: TreePirLayout, out: LayoutDto)
    requires
        call_ensures(LayoutDto::from_treepir, (&layout,), out),
    ensures
        out.leaf_count == layout.leaf_count,
        writes_hex(out.root_hex@, layout.root@),
        out.level_lens@.len() == 45,
        forall|i: int|
            0 <= i < 45 ==> (#[trigger] out.level_lens@[i]) == layout.level_lens@[i],
{
    lower_case_is_hex(layout.root@);
}

/// A response is sent with the layout, and for each level its number and the base64 of what
/// the response for that level is serialized to.
pub proof fn responses_are_sent_level_by_level<R, S: Fn(&R) -> Result<Vec<u8>, String>>(
    response: TreePirPathResponse<R>,
    serialize: S,
    dto: PathQueryResponse,
    i: int,
)
    requires
        call_ensures(PathQueryResponse::from_treepir::<R, S>, (&response, serialize), Ok(dto)),
        0 <= i < response.levels@.len(),
    ensures
        dto.layout@.leaf_count == response.layout.leaf_count,
        writes_hex(dto.layout.root_hex@, response.layout.root@),
        dto.layout.level_lens@ == response.layout.level_lens@,
        dto.levels@.len() == response.levels@.len(),
        dto.levels@[i].level == response.levels@[i].level,
        exists|bytes: Vec<u8>|
            is_base64_of(dto.levels@[i].response_json_base64@, bytes@) && #[trigger] call_ensures(
                serialize,
                (&response.levels@[i].response,),
                Ok::<Vec<u8>, String>(bytes),
            ),
{
    lower_case_is_hex(response.layout.root@);
    assert(level_sent(response.levels@[i], serialize, dto.levels@[i]));
}

/// A JSON value is shown as it is written.
pub proof fn json_values_are_shown_as_written(json: Json, out: String)
    requires
        call_ensures(Json::text, (&json,), out),
    ensures
        match json {
            Json::Null => out@ == "null"@,
            Json::Bool(b) => out@ == if b {
                "true"@
            } else {
                "false"@
            },
            Json::Number { value: _, text } => out@ == text@,
            Json::Text(s) => out@ == quoted(s@),
            Json::Array(_, text) => out@ == text@,
            Json::Object(_, text) => out@ == text@,
        },
{
}

/// The names of a field are listed in quotes, with commas between them.
pub proof fn names_are_listed(names: Seq<&str>, name: &str)
    ensures
        names_text(seq![name]) == "["@ + ("\""@ + name@ + "\""@) + "]"@,
        names.len() > 0 ==> quoted_names(names.push(name)) == quoted_names(names) + ", \""@ + name@
            + "\""@,
{
    let more = names.push(name);
    assert(more.drop_last() =~= names);
}

/// A root in plain characters can always be cut into pairs.
pub proof fn plain_roots_are_cut(dto: LayoutDto, cut: bool)
    requires
        is_ascii_chars(dto.root_hex@),
        call_ensures(LayoutDto::is_cut, (&dto,), cut),
    ensures
        cut,
{
    let text = dto.root_hex@;
    let s = encode_utf8(text);
    is_ascii_chars_encode_utf8(text);
    encode_utf8_valid_utf8(text);
    is_char_boundary_start_end_of_seq(s);
    assert forall|i: int| 0 <= i < s.len() / 2 implies #[trigger] pair_ends(s, i) by {
        if 2 * i + 2 < s.len() {
            is_char_boundary_iff_is_leading_byte(s, 2 * i + 2);
            utf8_byte_ranges_bitwise(s[2 * i + 2]);
            assert(text[2 * i + 2] as u8 == s[2 * i + 2]);
            assert('\0' <= text[2 * i + 2] <= '\u{7f}');
        }
    }
}

} // verus!
