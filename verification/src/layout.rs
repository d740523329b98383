//! The layout of the tree's level databases, and who may see it.
use vstd::prelude::*;
use vstd::string::*;
use vstd::utf8::*;

use crate::api_error::{missing_registration, missing_registration_error, ApiError, ApiFault};
use crate::encoding::{
    all_hex_digits, hex_encode, hex_reads_back, hex_text, is_hex_hash, pair_bytes,
    pairs_are_characters, pairs_end_at_characters, read_pairs, TreeHash,
};
use crate::text::{decimal, decimal_text};
use crate::SERVER_DEPTH;

verus! {

/// The layout of the level databases, in the abstract.
pub struct LayoutView {
    pub leaf_count: usize,
    pub root: Seq<u8>,
    pub level_lens: Seq<usize>,
}

/// The layout of the level databases.
#[derive(Debug, Clone, Copy)]
pub struct TreePirLayout {
    pub leaf_count: usize,
    pub root: TreeHash,
    /// The number of nodes of each level.
    pub level_lens: [usize; SERVER_DEPTH],
}

impl View for TreePirLayout {
    type V = LayoutView;

    open spec fn view(&self) -> LayoutView {
        LayoutView {
            leaf_count: self.leaf_count,
            root: self.root@,
            level_lens: self.level_lens@,
        }
    }
}

/// A layout as it is sent, in the abstract.
pub struct LayoutDtoView {
    pub leaf_count: usize,
    pub root_hex: Seq<char>,
    pub level_lens: Seq<usize>,
}

/// A layout as it is sent.
#[derive(Debug, Clone)]
pub struct LayoutDto {
    pub leaf_count: usize,
    pub root_hex: String,
    pub level_lens: Vec<usize>,
}

impl View for LayoutDto {
    type V = LayoutDtoView;

    open spec fn view(&self) -> LayoutDtoView {
        LayoutDtoView {
            leaf_count: self.leaf_count,
            root_hex: self.root_hex@,
            level_lens: self.level_lens@,
        }
    }
}

/// A request for the layout.
#[derive(Debug, Clone)]
pub struct LayoutQuery {
    pub crs_hash: Option<String>,
}

/// The answer to a request whether the server is up.
#[derive(Debug, Clone)]
pub struct HealthResponse {
    pub ok: bool,
    pub service: &'static str,
}

/// The answer to a request whether the server is up.
pub fn health() -> (out: HealthResponse)
    ensures
        out.ok,
        out.service@ == "stellar-mixer-treepir-server"@,
{
    HealthResponse { ok: true, service: "stellar-mixer-treepir-server" }
}

/// The answer to a request whether the server is ready.
#[derive(Debug, Clone)]
pub struct ReadyResponse {
    pub ready: bool,
    pub depth: usize,
    pub leaf_count: usize,
    pub root_hex: String,
}

/// The answer to a request whether the server is ready.
pub fn ready(leaf_count: usize, root: &TreeHash) -> (out: ReadyResponse)
    ensures
        out.ready,
        out.depth == SERVER_DEPTH,
        out.leaf_count == leaf_count,
        out.root_hex@ == hex_text(root@),
{
    ReadyResponse { ready: true, depth: SERVER_DEPTH, leaf_count, root_hex: hex_encode(root) }
}

/// A layout as it is sent.
pub open spec fn layout_sent(layout: LayoutView) -> LayoutDtoView {
    LayoutDtoView {
        leaf_count: layout.leaf_count,
        root_hex: hex_text(layout.root),
        level_lens: layout.level_lens,
    }
}

/// What is said of a root of `n` bytes of text.
pub open spec fn root_length_text(n: nat) -> Seq<char> {
    "expected 64 hex chars for root, got "@ + decimal(n)
}

/// The root that a text writes, two characters a byte.
pub open spec fn root_value(text: Seq<char>) -> Result<Seq<u8>, ApiFault> {
    let bytes = encode_utf8(text);
    if bytes.len() != 64 {
        Err(ApiFault::InvalidLayout(root_length_text(bytes.len())))
    } else {
        match pair_bytes(bytes) {
            Some(root) => Ok(root),
            None => Err(ApiFault::InvalidLayout("invalid digit found in string"@)),
        }
    }
}

/// A root of 64 bytes of text can be cut into pairs, as far as it is read.
pub open spec fn root_is_cut(text: Seq<char>) -> bool {
    encode_utf8(text).len() == 64 ==> pairs_are_characters(encode_utf8(text))
}

/// What is said of `n` level lengths.
pub open spec fn lengths_text(n: nat) -> Seq<char> {
    "expected "@ + decimal(SERVER_DEPTH as nat) + " level lengths, got "@ + decimal(n)
}

/// The layout that was sent.
pub open spec fn layout_received(dto: LayoutDtoView) -> Result<LayoutView, ApiFault> {
    if dto.level_lens.len() != SERVER_DEPTH {
        Err(ApiFault::InvalidLayout(lengths_text(dto.level_lens.len())))
    } else {
        match root_value(dto.root_hex) {
            Ok(root) => Ok(
                LayoutView { leaf_count: dto.leaf_count, root, level_lens: dto.level_lens },
            ),
            Err(error) => Err(error),
        }
    }
}

/// The root of a layout that was sent can be cut into pairs, where it is read.
pub open spec fn layout_is_cut(dto: LayoutDtoView) -> bool {
    dto.level_lens.len() == SERVER_DEPTH ==> root_is_cut(dto.root_hex)
}

/// The outcome of reading a root.
pub open spec fn root_outcome(out: Result<TreeHash, ApiError>) -> Result<Seq<u8>, ApiFault> {
    match out {
        Ok(root) => Ok(root@),
        Err(error) => Err(error@),
    }
}

/// The outcome of reading a layout.
pub open spec fn layout_outcome(out: Result<TreePirLayout, ApiError>) -> Result<
    LayoutView,
    ApiFault,
> {
    match out {
        Ok(layout) => Ok(layout@),
        Err(error) => Err(error@),
    }
}

/// The root that a text writes. A text of 64 bytes has to be cut into pairs.
pub fn hex_decode_32(value: &str) -> (out: Result<TreeHash, ApiError>)
    requires
        root_is_cut(value@),
    ensures
        root_outcome(out) == root_value(value@),
{
    let bytes = value.as_bytes();
    if bytes.len() != 64 {
        let mut why = "expected 64 hex chars for root, got ".to_owned();
        why.append(decimal_text(bytes.len() as u64).as_str());
        return Err(ApiError::InvalidLayout(why));
    }
    match read_pairs(bytes) {
        Some(root) => Ok(root),
        None => Err(ApiError::InvalidLayout("invalid digit found in string".to_owned())),
    }
}

impl LayoutDto {
    /// The layout as it is sent.
    pub fn from_treepir(layout: &TreePirLayout) -> (out: LayoutDto)
        ensures
            out@ == layout_sent(layout@),
    {
        let mut level_lens: Vec<usize> = Vec::new();
        let mut i: usize = 0;
        while i < SERVER_DEPTH
            invariant
                i <= SERVER_DEPTH,
                level_lens@ == layout.level_lens@.subrange(0, i as int),
            decreases SERVER_DEPTH - i,
        {
            level_lens.push(layout.level_lens[i]);
            assert(level_lens@ =~= layout.level_lens@.subrange(0, i + 1));
            i = i + 1;
        }
        assert(level_lens@ =~= layout.level_lens@);
        LayoutDto {
            leaf_count: layout.leaf_count,
            root_hex: hex_encode(&layout.root),
            level_lens,
        }
    }

    /// Whether the root can be cut into pairs, where it is read.
    pub fn is_cut(&self) -> (cut: bool)
        ensures
            cut == layout_is_cut(self@),
    {
        if self.level_lens.len() != SERVER_DEPTH {
            return true;
        }
        let root = self.root_hex.as_str();
        root.as_bytes().len() != 64 || pairs_end_at_characters(root)
    }

    /// The layout that was sent.
    pub fn to_treepir(&self) -> (out: Result<TreePirLayout, ApiError>)
        requires
            layout_is_cut(self@),
        ensures
            layout_outcome(out) == layout_received(self@),
    {
        if self.level_lens.len() != SERVER_DEPTH {
            let mut why = "expected ".to_owned();
            why.append(decimal_text(SERVER_DEPTH as u64).as_str());
            why.append(" level lengths, got ");
            why.append(decimal_text(self.level_lens.len() as u64).as_str());
            return Err(ApiError::InvalidLayout(why));
        }
        let root = hex_decode_32(self.root_hex.as_str())?;
        let mut level_lens: [usize; SERVER_DEPTH] = [0usize; SERVER_DEPTH];
        let mut i: usize = 0;
        while i < SERVER_DEPTH
            invariant
                i <= SERVER_DEPTH,
                self.level_lens@.len() == SERVER_DEPTH,
                forall|k: int| 0 <= k < i ==> level_lens@[k] == self.level_lens@[k],
            decreases SERVER_DEPTH - i,
        {
            level_lens[i] = self.level_lens[i];
            i = i + 1;
        }
        assert(level_lens@ =~= self.level_lens@);
        Ok(TreePirLayout { leaf_count: self.leaf_count, root, level_lens })
    }
}

/// Refuses a CRS hash that is not 64 hexadecimal digits.
pub fn validate_crs_hash_format(crs_hash: &str) -> (out: Result<(), ApiError>)
    ensures
        match out {
            Ok(()) => is_hex_hash(crs_hash@),
            Err(error) => !is_hex_hash(crs_hash@) && error@ == ApiFault::InvalidCrsHash,
        },
{
    let bytes = crs_hash.as_bytes();
    if bytes.len() != 64 || !all_hex_digits(bytes) {
        return Err(ApiError::InvalidCrsHash);
    }
    Ok(())
}

/// What is answered to a request for the layout: the layout, to a client that is
/// registered.
pub open spec fn layout_answer(
    crs_hash: Option<Seq<char>>,
    registered: bool,
    current: LayoutView,
) -> Result<LayoutDtoView, ApiFault> {
    match crs_hash {
        None => Err(missing_registration(Seq::empty())),
        Some(hash) => if !is_hex_hash(hash) {
            Err(ApiFault::InvalidCrsHash)
        } else if !registered {
            Err(missing_registration(hash))
        } else {
            Ok(layout_sent(current))
        },
    }
}

/// The CRS hash of a request.
pub open spec fn asked_hash(query: LayoutQuery) -> Option<Seq<char>> {
    match query.crs_hash {
        Some(hash) => Some(hash@),
        None => None,
    }
}

/// The outcome of answering a request for the layout.
pub open spec fn answer_outcome(out: Result<LayoutDto, ApiError>) -> Result<
    LayoutDtoView,
    ApiFault,
> {
    match out {
        Ok(dto) => Ok(dto@),
        Err(error) => Err(error@),
    }
}

/// Answers a request for the layout, given whether a client of its CRS hash is
/// registered.
pub fn layout(query: &LayoutQuery, registered: bool, current: &TreePirLayout) -> (out: Result<
    LayoutDto,
    ApiError,
>)
    ensures
        answer_outcome(out) == layout_answer(asked_hash(*query), registered, current@),
{
    match &query.crs_hash {
        None => {
            proof {
                reveal_strlit("");
                assert(""@ =~= Seq::empty());
            }
            Err(missing_registration_error(""))
        },
        Some(hash) => {
            validate_crs_hash_format(hash.as_str())?;
            if !registered {
                return Err(missing_registration_error(hash.as_str()));
            }
            Ok(LayoutDto::from_treepir(current))
        },
    }
}

/// A layout that is sent is received as it was.
pub proof fn layout_is_received_as_sent(layout: LayoutView)
    requires
        layout.root.len() == 32,
        layout.level_lens.len() == SERVER_DEPTH,
    ensures
        layout_is_cut(layout_sent(layout)),
        layout_received(layout_sent(layout)) == Ok::<LayoutView, ApiFault>(layout),
{
    hex_reads_back(layout.root);
    is_hex_text_length(layout.root);
}

/// The length of hexadecimal text.
proof fn is_hex_text_length(bytes: Seq<u8>)
    ensures
        encode_utf8(hex_text(bytes)).len() == 2 * bytes.len(),
{
    hex_reads_back(bytes);
    let s = encode_utf8(hex_text(bytes));
    assert(crate::encoding::hex_bytes(s)->0.len() == s.len() / 2);
}

/// A CRS hash was given, and it is 64 hexadecimal digits.
pub open spec fn gives_hash(crs_hash: Option<Seq<char>>) -> bool {
    crs_hash matches Some(hash) && is_hex_hash(hash)
}

/// The layout is answered only to a client that is registered under a CRS hash of
/// 64 hexadecimal digits. One that gives no hash, or is not registered, is not
/// authorized; a hash that is none is a bad request.
pub proof fn layout_is_for_registered_clients(
    crs_hash: Option<Seq<char>>,
    registered: bool,
    current: LayoutView,
)
    ensures
        layout_answer(crs_hash, registered, current) is Ok <==> registered && gives_hash(crs_hash),
        layout_answer(crs_hash, registered, current) matches Err(error) ==> error.status() == (
        if crs_hash is Some && !gives_hash(crs_hash) {
            400
        } else {
            401int
        }),
{
}

} // verus!
