//! Verified codecs between the schema entities and JSON documents.
//!
//! For each entity `X` there is a spec function giving the document an `X`
//! denotes (the wire contract), a spec function reading an `X` back out of a
//! document, executable counterparts of both, and a round-trip law.

use vstd::prelude::*;
use vstd::utf8::{valid_utf8, decode_utf8, encode_utf8};
use crate::json::{
    Json, JsonV, ascii, jview, jviews, mviews, lemma_jviews, lemma_mviews, print_json, parse_doc,
    wf_jsonv, lemma_print_parse_roundtrip, encode_doc, decode_doc,
};
use crate::models::{
    CachedLdeConfig, ProverConfig, ProverConfigV, FriParameters, FriParametersV, StarkParameters,
    StarkParametersV, ProverParameters, ProverParametersV, PrivateInput, PrivateInputV, Layout,
    MemorySegment, MemorySegmentV, MemorySegments, MemorySegmentsV, MemorySlot, MemorySlotV,
    PublicInput, PublicInputV, Proof, ProofV, u32s, slot_views, dynp_views,
};

verus! {

/// First value under key `k`, if the object has one.
pub open spec fn jlookup(ms: Seq<(Seq<u8>, JsonV)>, k: Seq<u8>) -> Option<JsonV>
    decreases ms.len(),
{
    if ms.len() == 0 {
        None
    } else if ms[0].0 == k {
        Some(ms[0].1)
    } else {
        jlookup(ms.drop_first(), k)
    }
}

/// The bytes of an ASCII key or tag.
fn key_bytes(s: &str) -> (r: Vec<u8>)
    requires
        s.is_ascii(),
    ensures
        r@ == ascii(s@),
{
    broadcast use vstd::string::is_ascii_spec_bytes;

    let v = s.as_bytes_vec();
    proof {
        assert(v@ =~= ascii(s@));
    }
    v
}

/// Byte-vector equality.
fn bytes_eq(a: &Vec<u8>, b: &Vec<u8>) -> (r: bool)
    ensures
        r == (a@ == b@),
{
    if a.len() != b.len() {
        proof {
            assert(a@ != b@);
        }
        return false;
    }
    let mut i: usize = 0;
    while i < a.len()
        invariant
            i <= a@.len(),
            a@.len() == b@.len(),
            forall|k: int| 0 <= k < i ==> a@[k] == b@[k],
        decreases a@.len() - i,
    {
        if a[i] != b[i] {
            proof {
                assert(a@[i as int] != b@[i as int]);
            }
            return false;
        }
        i += 1;
    }
    proof {
        assert(a@ =~= b@);
    }
    true
}

proof fn lemma_mviews_skip(ms: Seq<(Vec<u8>, Json)>, i: int)
    requires
        0 <= i <= ms.len(),
    ensures
        mviews(ms.skip(i)) =~= mviews(ms).skip(i),
{
    broadcast use lemma_mviews;

    assert forall|k: int| 0 <= k < ms.len() - i implies mviews(ms.skip(i))[k] == mviews(ms).skip(
        i,
    )[k] by {
        assert(ms.skip(i)[k] == ms[i + k]);
    }
}

/// First value under key `k` in an executable object.
fn jlookup_exec<'a>(ms: &'a Vec<(Vec<u8>, Json)>, k: &Vec<u8>, i: usize) -> (r: Option<&'a Json>)
    requires
        i <= ms@.len(),
    ensures
        ({
            let sp = jlookup(mviews(ms@).skip(i as int), k@);
            match r {
                Some(j) => sp == Some(j@),
                None => sp is None,
            }
        }),
    decreases ms@.len() - i,
{
    broadcast use lemma_mviews;

    proof {
        lemma_mviews_skip(ms@, i as int);
    }
    if i == ms.len() {
        None
    } else {
        proof {
            assert(mviews(ms@).skip(i as int)[0] == mviews(ms@)[i as int]);
            assert(mviews(ms@).skip(i as int).drop_first() =~= mviews(ms@).skip(i as int + 1));
        }
        if bytes_eq(&ms[i].0, k) {
            Some(&ms[i].1)
        } else {
            jlookup_exec(ms, k, i + 1)
        }
    }
}

/// The tag an engine layout is written as.
pub open spec fn layout_tag(l: Layout) -> Seq<char> {
    match l {
        Layout::Plain => "plain"@,
        Layout::Small => "small"@,
        Layout::Dex => "dex"@,
        Layout::Recursive => "recursive"@,
        Layout::Starknet => "starknet"@,
        Layout::RecursiveLargeOutput => "recursive_large_output"@,
        Layout::AllSolidity => "all_solidity"@,
        Layout::StarknetWithKeccak => "starknet_with_keccak"@,
    }
}

/// The document a layout denotes: its tag as a string.
pub open spec fn layout_jsonv(l: Layout) -> JsonV {
    JsonV::Str(ascii(layout_tag(l)))
}

/// The layout a document denotes, if its string is exactly one of the eight
/// documented tags.
pub open spec fn layout_of_jsonv(j: JsonV) -> Option<Layout> {
    match j {
        JsonV::Str(b) => {
            if b == ascii("plain"@) {
                Some(Layout::Plain)
            } else if b == ascii("small"@) {
                Some(Layout::Small)
            } else if b == ascii("dex"@) {
                Some(Layout::Dex)
            } else if b == ascii("recursive"@) {
                Some(Layout::Recursive)
            } else if b == ascii("starknet"@) {
                Some(Layout::Starknet)
            } else if b == ascii("recursive_large_output"@) {
                Some(Layout::RecursiveLargeOutput)
            } else if b == ascii("all_solidity"@) {
                Some(Layout::AllSolidity)
            } else if b == ascii("starknet_with_keccak"@) {
                Some(Layout::StarknetWithKeccak)
            } else {
                None
            }
        },
        _ => None,
    }
}

proof fn lemma_layout_tags_ascii()
    ensures
        "plain".is_ascii(),
        "small".is_ascii(),
        "dex".is_ascii(),
        "recursive".is_ascii(),
        "starknet".is_ascii(),
        "recursive_large_output".is_ascii(),
        "all_solidity".is_ascii(),
        "starknet_with_keccak".is_ascii(),
{
    reveal_strlit("plain");
    reveal_strlit("small");
    reveal_strlit("dex");
    reveal_strlit("recursive");
    reveal_strlit("starknet");
    reveal_strlit("recursive_large_output");
    reveal_strlit("all_solidity");
    reveal_strlit("starknet_with_keccak");
}

pub fn layout_to_json(l: &Layout) -> (j: Json)
    ensures
        j@ == layout_jsonv(*l),
{
    proof {
        lemma_layout_tags_ascii();
    }
    match l {
        Layout::Plain => Json::Str(key_bytes("plain")),
        Layout::Small => Json::Str(key_bytes("small")),
        Layout::Dex => Json::Str(key_bytes("dex")),
        Layout::Recursive => Json::Str(key_bytes("recursive")),
        Layout::Starknet => Json::Str(key_bytes("starknet")),
        Layout::RecursiveLargeOutput => Json::Str(key_bytes("recursive_large_output")),
        Layout::AllSolidity => Json::Str(key_bytes("all_solidity")),
        Layout::StarknetWithKeccak => Json::Str(key_bytes("starknet_with_keccak")),
    }
}

pub fn layout_of_json(j: &Json) -> (r: Option<Layout>)
    ensures
        r == layout_of_jsonv(j@),
{
    proof {
        lemma_layout_tags_ascii();
    }
    match j {
        Json::Str(b) => {
            if bytes_eq(b, &key_bytes("plain")) {
                Some(Layout::Plain)
            } else if bytes_eq(b, &key_bytes("small")) {
                Some(Layout::Small)
            } else if bytes_eq(b, &key_bytes("dex")) {
                Some(Layout::Dex)
            } else if bytes_eq(b, &key_bytes("recursive")) {
                Some(Layout::Recursive)
            } else if bytes_eq(b, &key_bytes("starknet")) {
                Some(Layout::Starknet)
            } else if bytes_eq(b, &key_bytes("recursive_large_output")) {
                Some(Layout::RecursiveLargeOutput)
            } else if bytes_eq(b, &key_bytes("all_solidity")) {
                Some(Layout::AllSolidity)
            } else if bytes_eq(b, &key_bytes("starknet_with_keccak")) {
                Some(Layout::StarknetWithKeccak)
            } else {
                None
            }
        },
        _ => None,
    }
}

/// Law: the eight documented tags decode to their layouts, and no other
/// string decodes at all.
pub proof fn lemma_layout_tags_exact(b: Seq<u8>)
    ensures
        layout_of_jsonv(JsonV::Str(b)) is Some <==> exists|l: Layout| b == ascii(layout_tag(l)),
        forall|l: Layout| layout_of_jsonv(JsonV::Str(ascii(layout_tag(l)))) == Some(l),
{
    reveal_strlit("plain");
    reveal_strlit("small");
    reveal_strlit("dex");
    reveal_strlit("recursive");
    reveal_strlit("starknet");
    reveal_strlit("recursive_large_output");
    reveal_strlit("all_solidity");
    reveal_strlit("starknet_with_keccak");
    if layout_of_jsonv(JsonV::Str(b)) is Some {
        if b == ascii("plain"@) {
            assert(b == ascii(layout_tag(Layout::Plain)));
        } else if b == ascii("small"@) {
            assert(b == ascii(layout_tag(Layout::Small)));
        } else if b == ascii("dex"@) {
            assert(b == ascii(layout_tag(Layout::Dex)));
        } else if b == ascii("recursive"@) {
            assert(b == ascii(layout_tag(Layout::Recursive)));
        } else if b == ascii("starknet"@) {
            assert(b == ascii(layout_tag(Layout::Starknet)));
        } else if b == ascii("recursive_large_output"@) {
            assert(b == ascii(layout_tag(Layout::RecursiveLargeOutput)));
        } else if b == ascii("all_solidity"@) {
            assert(b == ascii(layout_tag(Layout::AllSolidity)));
        } else {
            assert(b == ascii(layout_tag(Layout::StarknetWithKeccak)));
        }
    }
    assert forall|l: Layout| layout_of_jsonv(JsonV::Str(ascii(layout_tag(l)))) == Some(l) by {
        assert(ascii("plain"@)[0] != ascii("small"@)[0]);
        assert(ascii("plain"@).len() == 5);
        assert(ascii("small"@).len() == 5);
        assert(ascii("dex"@).len() == 3);
        assert(ascii("recursive"@).len() == 9);
        assert(ascii("starknet"@).len() == 8);
        assert(ascii("recursive_large_output"@).len() == 22);
        assert(ascii("all_solidity"@).len() == 12);
        assert(ascii("starknet_with_keccak"@).len() == 20);
        match l {
            Layout::Plain => assert(layout_of_jsonv(JsonV::Str(ascii(layout_tag(l)))) == Some(l)),
            Layout::Small => assert(layout_of_jsonv(JsonV::Str(ascii(layout_tag(l)))) == Some(l)),
            Layout::Dex => assert(layout_of_jsonv(JsonV::Str(ascii(layout_tag(l)))) == Some(l)),
            Layout::Recursive => assert(layout_of_jsonv(JsonV::Str(ascii(layout_tag(l)))) == Some(
                l,
            )),
            Layout::Starknet => assert(layout_of_jsonv(JsonV::Str(ascii(layout_tag(l)))) == Some(
                l,
            )),
            Layout::RecursiveLargeOutput => assert(layout_of_jsonv(JsonV::Str(ascii(layout_tag(l))))
                == Some(l)),
            Layout::AllSolidity => assert(layout_of_jsonv(JsonV::Str(ascii(layout_tag(l))))
                == Some(l)),
            Layout::StarknetWithKeccak => assert(layout_of_jsonv(
                JsonV::Str(ascii(layout_tag(l))),
            ) == Some(l)),
        }
    }
}

/// Relies on `String::from_utf8`: it succeeds exactly on valid UTF-8 input,
/// and then returns the string whose encoding the input bytes are.
#[verifier::external_body]
fn string_from_utf8(b: Vec<u8>) -> (r: Option<String>)
    ensures
        r is Some <==> valid_utf8(b@),
        r matches Some(s) ==> encode_utf8(s@) == b@,
{
    String::from_utf8(b).ok()
}

fn copy_bytes(v: &Vec<u8>) -> (r: Vec<u8>)
    ensures
        r@ == v@,
{
    let mut r: Vec<u8> = Vec::new();
    let mut i: usize = 0;
    while i < v.len()
        invariant
            i <= v@.len(),
            r@ == v@.take(i as int),
        decreases v@.len() - i,
    {
        r.push(v[i]);
        proof {
            assert(r@ =~= v@.take(i as int + 1));
        }
        i += 1;
    }
    proof {
        assert(v@.take(v@.len() as int) =~= v@);
    }
    r
}

/// The value under position `i`, when the first `i` keys differ from `k`.
proof fn lemma_jlookup_at(ms: Seq<(Seq<u8>, JsonV)>, k: Seq<u8>, i: int)
    requires
        0 <= i < ms.len(),
        ms[i].0 == k,
        forall|j: int| 0 <= j < i ==> (#[trigger] ms[j]).0 != k,
    ensures
        jlookup(ms, k) == Some(ms[i].1),
    decreases i,
{
    if i > 0 {
        assert(ms[0].0 != k);
        assert(forall|j: int| 0 <= j < i - 1 ==> (#[trigger] ms.drop_first()[j]) == ms[j + 1]);
        lemma_jlookup_at(ms.drop_first(), k, i - 1);
    }
}

/// The boolean a looked-up value holds.
pub open spec fn jas_bool(o: Option<JsonV>) -> Option<bool> {
    match o {
        Some(JsonV::Bool(b)) => Some(b),
        _ => None,
    }
}

/// The integer a looked-up value holds, if it fits an unsigned 32-bit field.
pub open spec fn jas_u32(o: Option<JsonV>) -> Option<int> {
    match o {
        Some(JsonV::Int(v)) => if 0 <= v <= 0xffffffff {
            Some(v)
        } else {
            None
        },
        _ => None,
    }
}

/// The integer a looked-up value holds, if it fits a signed 32-bit field.
pub open spec fn jas_i32(o: Option<JsonV>) -> Option<int> {
    match o {
        Some(JsonV::Int(v)) => if -0x80000000 <= v <= 0x7fffffff {
            Some(v)
        } else {
            None
        },
        _ => None,
    }
}

/// The characters a looked-up string value holds.
pub open spec fn jas_str(o: Option<JsonV>) -> Option<Seq<char>> {
    match o {
        Some(JsonV::Str(b)) => if valid_utf8(b) {
            Some(decode_utf8(b))
        } else {
            None
        },
        _ => None,
    }
}

/// The unsigned 32-bit integers an element list holds.
pub open spec fn ints_of(es: Seq<JsonV>) -> Option<Seq<int>>
    decreases es.len(),
{
    if es.len() == 0 {
        Some(Seq::empty())
    } else {
        match es[0] {
            JsonV::Int(v) => if 0 <= v <= 0xffffffff {
                match ints_of(es.drop_first()) {
                    Some(t) => Some(seq![v] + t),
                    None => None,
                }
            } else {
                None
            },
            _ => None,
        }
    }
}

/// The integer list a looked-up array value holds.
pub open spec fn jas_u32_list(o: Option<JsonV>) -> Option<Seq<int>> {
    match o {
        Some(JsonV::Arr(es)) => ints_of(es),
        _ => None,
    }
}

/// The documents of a list of unsigned 32-bit integers.
pub open spec fn ints_jsonv(xs: Seq<int>) -> Seq<JsonV> {
    Seq::new(xs.len(), |i: int| JsonV::Int(xs[i]))
}

proof fn lemma_ints_roundtrip(xs: Seq<int>)
    requires
        forall|i: int| 0 <= i < xs.len() ==> 0 <= #[trigger] xs[i] <= 0xffffffff,
    ensures
        ints_of(ints_jsonv(xs)) == Some(xs),
    decreases xs.len(),
{
    if xs.len() > 0 {
        lemma_ints_roundtrip(xs.drop_first());
        assert(ints_jsonv(xs).drop_first() =~= ints_jsonv(xs.drop_first()));
        assert(seq![xs[0]] + xs.drop_first() =~= xs);
    }
}

fn u32s_to_json(v: &Vec<u32>) -> (j: Json)
    ensures
        j@ == JsonV::Arr(ints_jsonv(u32s(v@))),
{
    broadcast use lemma_jviews;

    let mut es: Vec<Json> = Vec::new();
    let mut i: usize = 0;
    while i < v.len()
        invariant
            i <= v@.len(),
            es@.len() == i,
            forall|k: int| 0 <= k < i ==> es@[k] == Json::Int(v@[k] as i64),
        decreases v@.len() - i,
    {
        es.push(Json::Int(v[i] as i64));
        i += 1;
    }
    proof {
        lemma_jviews(es@);
        assert(jviews(es@) =~= ints_jsonv(u32s(v@)));
    }
    Json::Arr(es)
}

fn u32s_of_json(es: &Vec<Json>) -> (r: Option<Vec<u32>>)
    ensures
        ({
            let sp = ints_of(jviews(es@));
            match r {
                Some(v) => sp == Some(u32s(v@)),
                None => sp is None,
            }
        }),
{
    broadcast use lemma_jviews;

    let mut out: Vec<u32> = Vec::new();
    let mut i: usize = 0;
    while i < es.len()
        invariant
            i <= es@.len(),
            out@.len() == i,
            jviews(es@).len() == es@.len(),
            forall|k: int| 0 <= k < i ==> jviews(es@)[k] == JsonV::Int(#[trigger] out@[k] as int),
        decreases es@.len() - i,
    {
        proof {
            lemma_jviews(es@);
            assert(jviews(es@)[i as int] == jview(es@[i as int]));
        }
        match &es[i] {
            Json::Int(v) => {
                if 0 <= *v && *v <= 0xffffffff {
                    out.push(*v as u32);
                    proof {
                        assert(jviews(es@)[i as int] == JsonV::Int(out@[i as int] as int));
                    }
                } else {
                    proof {
                        lemma_ints_of_bad(jviews(es@), i as int);
                    }
                    return None;
                }
            },
            _ => {
                proof {
                    lemma_ints_of_bad(jviews(es@), i as int);
                }
                return None;
            },
        }
        i += 1;
    }
    proof {
        lemma_jviews(es@);
        lemma_ints_of_all(jviews(es@), u32s(out@));
    }
    Some(out)
}

/// If position `i` of the list holds no unsigned 32-bit integer, the whole
/// list holds none.
proof fn lemma_ints_of_bad(es: Seq<JsonV>, i: int)
    requires
        0 <= i < es.len(),
        !(es[i] matches JsonV::Int(v) && 0 <= v <= 0xffffffff),
    ensures
        ints_of(es) is None,
    decreases i,
{
    if i > 0 {
        lemma_ints_of_bad(es.drop_first(), i - 1);
    }
}

proof fn lemma_ints_of_all(es: Seq<JsonV>, xs: Seq<int>)
    requires
        es.len() == xs.len(),
        forall|k: int| 0 <= k < es.len() ==> es[k] == JsonV::Int(#[trigger] xs[k]),
        forall|k: int| 0 <= k < xs.len() ==> 0 <= #[trigger] xs[k] <= 0xffffffff,
    ensures
        ints_of(es) == Some(xs),
    decreases es.len(),
{
    if es.len() > 0 {
        assert(forall|k: int|
            0 <= k < es.drop_first().len() ==> (#[trigger] es.drop_first()[k]) == es[k + 1]);
        assert(forall|k: int|
            0 <= k < xs.drop_first().len() ==> (#[trigger] xs.drop_first()[k]) == xs[k + 1]);
        lemma_ints_of_all(es.drop_first(), xs.drop_first());
        assert(seq![xs[0]] + xs.drop_first() =~= xs);
    }
}

/// The document a prover configuration denotes.
pub open spec fn config_jsonv(c: ProverConfigV) -> JsonV {
    JsonV::Obj(
        seq![
            (
                ascii("cached_lde_config"@),
                JsonV::Obj(
                    seq![
                        (ascii("store_full_lde"@), JsonV::Bool(c.store_full_lde)),
                        (ascii("use_fft_for_eval"@), JsonV::Bool(c.use_fft_for_eval)),
                    ],
                ),
            ),
            (
                ascii("constraint_polynomial_task_size"@),
                JsonV::Int(c.constraint_polynomial_task_size),
            ),
            (ascii("n_out_of_memory_merkle_layers"@), JsonV::Int(c.n_out_of_memory_merkle_layers)),
            (
                ascii("table_prover_n_tasks_per_segment"@),
                JsonV::Int(c.table_prover_n_tasks_per_segment),
            ),
        ],
    )
}

/// The prover configuration a document denotes.
pub open spec fn config_of_jsonv(j: JsonV) -> Option<ProverConfigV> {
    match j {
        JsonV::Obj(ms) => {
            let lde = match jlookup(ms, ascii("cached_lde_config"@)) {
                Some(JsonV::Obj(lms)) => Some(
                    (
                        jas_bool(jlookup(lms, ascii("store_full_lde"@))),
                        jas_bool(jlookup(lms, ascii("use_fft_for_eval"@))),
                    ),
                ),
                _ => None,
            };
            let cp = jas_i32(jlookup(ms, ascii("constraint_polynomial_task_size"@)));
            let nm = jas_i32(jlookup(ms, ascii("n_out_of_memory_merkle_layers"@)));
            let tp = jas_i32(jlookup(ms, ascii("table_prover_n_tasks_per_segment"@)));
            if lde matches Some((Some(sf), Some(uf))) && cp is Some && nm is Some && tp is Some {
                Some(
                    ProverConfigV {
                        store_full_lde: lde->Some_0.0->Some_0,
                        use_fft_for_eval: lde->Some_0.1->Some_0,
                        constraint_polynomial_task_size: cp->Some_0,
                        n_out_of_memory_merkle_layers: nm->Some_0,
                        table_prover_n_tasks_per_segment: tp->Some_0,
                    },
                )
            } else {
                None
            }
        },
        _ => None,
    }
}

proof fn lemma_config_keys()
    ensures
        "cached_lde_config".is_ascii(),
        "store_full_lde".is_ascii(),
        "use_fft_for_eval".is_ascii(),
        "constraint_polynomial_task_size".is_ascii(),
        "n_out_of_memory_merkle_layers".is_ascii(),
        "table_prover_n_tasks_per_segment".is_ascii(),
        ascii("cached_lde_config"@).len() == 17,
        ascii("store_full_lde"@).len() == 14,
        ascii("use_fft_for_eval"@).len() == 16,
        ascii("constraint_polynomial_task_size"@).len() == 31,
        ascii("n_out_of_memory_merkle_layers"@).len() == 29,
        ascii("table_prover_n_tasks_per_segment"@).len() == 32,
{
    reveal_strlit("cached_lde_config");
    reveal_strlit("store_full_lde");
    reveal_strlit("use_fft_for_eval");
    reveal_strlit("constraint_polynomial_task_size");
    reveal_strlit("n_out_of_memory_merkle_layers");
    reveal_strlit("table_prover_n_tasks_per_segment");
}

/// Law: a prover configuration read back from its own document is itself.
pub proof fn lemma_config_roundtrip(c: ProverConfigV)
    requires
        i32::MIN <= c.constraint_polynomial_task_size <= i32::MAX,
        i32::MIN <= c.n_out_of_memory_merkle_layers <= i32::MAX,
        i32::MIN <= c.table_prover_n_tasks_per_segment <= i32::MAX,
    ensures
        config_of_jsonv(config_jsonv(c)) == Some(c),
        wf_jsonv(config_jsonv(c)),
{
    lemma_config_keys();
    let ms = config_jsonv(c)->Obj_0;
    let lms = ms[0].1->Obj_0;
    assert(ms.len() == 4 && lms.len() == 2);
    assert(ms[0].0 == ascii("cached_lde_config"@));
    assert(ms[1].0 == ascii("constraint_polynomial_task_size"@));
    assert(ms[2].0 == ascii("n_out_of_memory_merkle_layers"@));
    assert(ms[3].0 == ascii("table_prover_n_tasks_per_segment"@));
    lemma_jlookup_at(ms, ascii("cached_lde_config"@), 0);
    lemma_jlookup_at(ms, ascii("constraint_polynomial_task_size"@), 1);
    lemma_jlookup_at(ms, ascii("n_out_of_memory_merkle_layers"@), 2);
    lemma_jlookup_at(ms, ascii("table_prover_n_tasks_per_segment"@), 3);
    lemma_jlookup_at(lms, ascii("store_full_lde"@), 0);
    lemma_jlookup_at(lms, ascii("use_fft_for_eval"@), 1);
    assert(config_of_jsonv(config_jsonv(c)) == Some(c));
    assert(wf_jsonv(ms[0].1)) by {
        assert forall|i: int| 0 <= i < lms.len() implies wf_jsonv((#[trigger] lms[i]).1) by {
            assert(wf_jsonv(JsonV::Bool(c.store_full_lde)));
            assert(wf_jsonv(JsonV::Bool(c.use_fft_for_eval)));
        }
    }
    assert forall|i: int| 0 <= i < ms.len() implies wf_jsonv((#[trigger] ms[i]).1) by {
        assert(wf_jsonv(ms[0].1));
        assert(wf_jsonv(ms[1].1));
        assert(wf_jsonv(ms[2].1));
        assert(wf_jsonv(ms[3].1));
    }
}

fn config_to_json(c: &ProverConfig) -> (j: Json)
    ensures
        j@ == config_jsonv(c@),
{
    broadcast use lemma_mviews;

    proof {
        lemma_config_keys();
    }
    let mut lms: Vec<(Vec<u8>, Json)> = Vec::new();
    lms.push((key_bytes("store_full_lde"), Json::Bool(c.cached_lde_config.store_full_lde)));
    lms.push((key_bytes("use_fft_for_eval"), Json::Bool(c.cached_lde_config.use_fft_for_eval)));
    let mut ms: Vec<(Vec<u8>, Json)> = Vec::new();
    ms.push((key_bytes("cached_lde_config"), Json::Obj(lms)));
    ms.push(
        (
            key_bytes("constraint_polynomial_task_size"),
            Json::Int(c.constraint_polynomial_task_size as i64),
        ),
    );
    ms.push(
        (
            key_bytes("n_out_of_memory_merkle_layers"),
            Json::Int(c.n_out_of_memory_merkle_layers as i64),
        ),
    );
    ms.push(
        (
            key_bytes("table_prover_n_tasks_per_segment"),
            Json::Int(c.table_prover_n_tasks_per_segment as i64),
        ),
    );
    let j = Json::Obj(ms);
    proof {
        assert(mviews(j->Obj_0@)[0].1 == JsonV::Obj(mviews(j->Obj_0@[0].1->Obj_0@)));
        assert(mviews(j->Obj_0@[0].1->Obj_0@) =~= config_jsonv(c@)->Obj_0[0].1->Obj_0);
        assert(mviews(j->Obj_0@) =~= config_jsonv(c@)->Obj_0) by {
            assert(mviews(j->Obj_0@)[0].1 =~~= config_jsonv(c@)->Obj_0[0].1);
        }
    }
    j
}

fn config_of_json(j: &Json) -> (r: Option<ProverConfig>)
    ensures
        ({
            let sp = config_of_jsonv(j@);
            match r {
                Some(c) => sp == Some(c@),
                None => sp is None,
            }
        }),
{
    proof {
        lemma_config_keys();
    }
    match j {
        Json::Obj(ms) => {
            proof {
                assert(mviews(ms@).skip(0) =~= mviews(ms@));
            }
            let lde = jlookup_exec(ms, &key_bytes("cached_lde_config"), 0);
            let sf: Option<bool>;
            let uf: Option<bool>;
            match lde {
                Some(Json::Obj(lms)) => {
                    proof {
                        assert(mviews(lms@).skip(0) =~= mviews(lms@));
                    }
                    sf = match jlookup_exec(lms, &key_bytes("store_full_lde"), 0) {
                        Some(Json::Bool(b)) => Some(*b),
                        _ => None,
                    };
                    uf = match jlookup_exec(lms, &key_bytes("use_fft_for_eval"), 0) {
                        Some(Json::Bool(b)) => Some(*b),
                        _ => None,
                    };
                },
                _ => {
                    return None;
                },
            }
            let cp = match jlookup_exec(ms, &key_bytes("constraint_polynomial_task_size"), 0) {
                Some(Json::Int(v)) => if -0x80000000i64 <= *v && *v <= 0x7fffffffi64 {
                    Some(*v as i32)
                } else {
                    None
                },
                _ => None,
            };
            let nm = match jlookup_exec(ms, &key_bytes("n_out_of_memory_merkle_layers"), 0) {
                Some(Json::Int(v)) => if -0x80000000i64 <= *v && *v <= 0x7fffffffi64 {
                    Some(*v as i32)
                } else {
                    None
                },
                _ => None,
            };
            let tp = match jlookup_exec(ms, &key_bytes("table_prover_n_tasks_per_segment"), 0) {
                Some(Json::Int(v)) => if -0x80000000i64 <= *v && *v <= 0x7fffffffi64 {
                    Some(*v as i32)
                } else {
                    None
                },
                _ => None,
            };
            match (sf, uf, cp, nm, tp) {
                (Some(sf), Some(uf), Some(cp), Some(nm), Some(tp)) => Some(
                    ProverConfig {
                        cached_lde_config: CachedLdeConfig {
                            store_full_lde: sf,
                            use_fft_for_eval: uf,
                        },
                        constraint_polynomial_task_size: cp,
                        n_out_of_memory_merkle_layers: nm,
                        table_prover_n_tasks_per_segment: tp,
                    },
                ),
                _ => None,
            }
        },
        _ => None,
    }
}


/// The document a FRI parameter record denotes.
pub open spec fn fri_jsonv(f: FriParametersV) -> JsonV {
    JsonV::Obj(
        seq![
            (ascii("fri_step_list"@), JsonV::Arr(ints_jsonv(f.fri_step_list))),
            (ascii("last_layer_degree_bound"@), JsonV::Int(f.last_layer_degree_bound)),
            (ascii("n_queries"@), JsonV::Int(f.n_queries)),
            (ascii("proof_of_work_bits"@), JsonV::Int(f.proof_of_work_bits)),
        ],
    )
}

/// The FRI parameter record a document denotes.
pub open spec fn fri_of_jsonv(j: JsonV) -> Option<FriParametersV> {
    match j {
        JsonV::Obj(ms) => {
            let sl = jas_u32_list(jlookup(ms, ascii("fri_step_list"@)));
            let lb = jas_u32(jlookup(ms, ascii("last_layer_degree_bound"@)));
            let nq = jas_u32(jlookup(ms, ascii("n_queries"@)));
            let pb = jas_u32(jlookup(ms, ascii("proof_of_work_bits"@)));
            if sl is Some && lb is Some && nq is Some && pb is Some {
                Some(
                    FriParametersV {
                        fri_step_list: sl->Some_0,
                        last_layer_degree_bound: lb->Some_0,
                        n_queries: nq->Some_0,
                        proof_of_work_bits: pb->Some_0,
                    },
                )
            } else {
                None
            }
        },
        _ => None,
    }
}

/// The document a STARK parameter record denotes.
pub open spec fn stark_jsonv(p: StarkParametersV) -> JsonV {
    JsonV::Obj(
        seq![
            (ascii("fri"@), fri_jsonv(p.fri)),
            (ascii("log_n_cosets"@), JsonV::Int(p.log_n_cosets)),
        ],
    )
}

/// The STARK parameter record a document denotes.
pub open spec fn stark_of_jsonv(j: JsonV) -> Option<StarkParametersV> {
    match j {
        JsonV::Obj(ms) => {
            let fr = match jlookup(ms, ascii("fri"@)) {
                Some(fj) => fri_of_jsonv(fj),
                None => None,
            };
            let lc = jas_i32(jlookup(ms, ascii("log_n_cosets"@)));
            if fr is Some && lc is Some {
                Some(StarkParametersV { fri: fr->Some_0, log_n_cosets: lc->Some_0 })
            } else {
                None
            }
        },
        _ => None,
    }
}

/// The document a prover parameter record denotes.
pub open spec fn parameters_jsonv(p: ProverParametersV) -> JsonV {
    JsonV::Obj(
        seq![
            (ascii("field"@), JsonV::Str(encode_utf8(p.field))),
            (ascii("stark"@), stark_jsonv(p.stark)),
            (ascii("use_extension_field"@), JsonV::Bool(p.use_extension_field)),
        ],
    )
}

/// The prover parameter record a document denotes.
pub open spec fn parameters_of_jsonv(j: JsonV) -> Option<ProverParametersV> {
    match j {
        JsonV::Obj(ms) => {
            let fd = jas_str(jlookup(ms, ascii("field"@)));
            let st = match jlookup(ms, ascii("stark"@)) {
                Some(sj) => stark_of_jsonv(sj),
                None => None,
            };
            let ue = jas_bool(jlookup(ms, ascii("use_extension_field"@)));
            if fd is Some && st is Some && ue is Some {
                Some(
                    ProverParametersV {
                        field: fd->Some_0,
                        stark: st->Some_0,
                        use_extension_field: ue->Some_0,
                    },
                )
            } else {
                None
            }
        },
        _ => None,
    }
}

/// The document a private input denotes.
pub open spec fn private_input_jsonv(p: PrivateInputV) -> JsonV {
    JsonV::Obj(
        seq![
            (ascii("memory_path"@), JsonV::Str(encode_utf8(p.memory_path))),
            (ascii("trace_path"@), JsonV::Str(encode_utf8(p.trace_path))),
            (ascii("pedersen"@), JsonV::Arr(ints_jsonv(p.pedersen))),
            (ascii("range_check"@), JsonV::Arr(ints_jsonv(p.range_check))),
            (ascii("ecdsa"@), JsonV::Arr(ints_jsonv(p.ecdsa))),
        ],
    )
}

/// The private input a document denotes.
pub open spec fn private_input_of_jsonv(j: JsonV) -> Option<PrivateInputV> {
    match j {
        JsonV::Obj(ms) => {
            let mp = jas_str(jlookup(ms, ascii("memory_path"@)));
            let tp = jas_str(jlookup(ms, ascii("trace_path"@)));
            let pd = jas_u32_list(jlookup(ms, ascii("pedersen"@)));
            let rc = jas_u32_list(jlookup(ms, ascii("range_check"@)));
            let ec = jas_u32_list(jlookup(ms, ascii("ecdsa"@)));
            if mp is Some && tp is Some && pd is Some && rc is Some && ec is Some {
                Some(
                    PrivateInputV {
                        memory_path: mp->Some_0,
                        trace_path: tp->Some_0,
                        pedersen: pd->Some_0,
                        range_check: rc->Some_0,
                        ecdsa: ec->Some_0,
                    },
                )
            } else {
                None
            }
        },
        _ => None,
    }
}

/// The document a proof denotes.
pub open spec fn proof_jsonv(p: ProofV) -> JsonV {
    JsonV::Obj(seq![(ascii("proof_hex"@), JsonV::Str(encode_utf8(p.proof_hex)))])
}

/// The proof a document denotes; members other than `proof_hex` are ignored.
pub open spec fn proof_of_jsonv(j: JsonV) -> Option<ProofV> {
    match j {
        JsonV::Obj(ms) => {
            let ph = jas_str(jlookup(ms, ascii("proof_hex"@)));
            if ph is Some {
                Some(ProofV { proof_hex: ph->Some_0 })
            } else {
                None
            }
        },
        _ => None,
    }
}

proof fn lemma_parameters_keys()
    ensures
        "fri_step_list".is_ascii(),
        "last_layer_degree_bound".is_ascii(),
        "n_queries".is_ascii(),
        "proof_of_work_bits".is_ascii(),
        "fri".is_ascii(),
        "log_n_cosets".is_ascii(),
        "field".is_ascii(),
        "stark".is_ascii(),
        "use_extension_field".is_ascii(),
        ascii("fri_step_list"@).len() == 13,
        ascii("last_layer_degree_bound"@).len() == 23,
        ascii("n_queries"@).len() == 9,
        ascii("proof_of_work_bits"@).len() == 18,
        ascii("fri"@).len() == 3,
        ascii("log_n_cosets"@).len() == 12,
        ascii("field"@).len() == 5,
        ascii("stark"@).len() == 5,
        ascii("field"@) != ascii("stark"@),
        ascii("use_extension_field"@).len() == 19,
{
    reveal_strlit("fri_step_list");
    reveal_strlit("last_layer_degree_bound");
    reveal_strlit("n_queries");
    reveal_strlit("proof_of_work_bits");
    reveal_strlit("fri");
    reveal_strlit("log_n_cosets");
    reveal_strlit("field");
    reveal_strlit("stark");
    reveal_strlit("use_extension_field");
    assert(ascii("field"@)[0] != ascii("stark"@)[0]);
}

proof fn lemma_private_input_keys()
    ensures
        "memory_path".is_ascii(),
        "trace_path".is_ascii(),
        "pedersen".is_ascii(),
        "range_check".is_ascii(),
        "ecdsa".is_ascii(),
        "proof_hex".is_ascii(),
        ascii("memory_path"@).len() == 11,
        ascii("trace_path"@).len() == 10,
        ascii("pedersen"@).len() == 8,
        ascii("range_check"@).len() == 11,
        ascii("ecdsa"@).len() == 5,
        ascii("memory_path"@) != ascii("range_check"@),
        ascii("proof_hex"@).len() == 9,
{
    reveal_strlit("memory_path");
    reveal_strlit("trace_path");
    reveal_strlit("pedersen");
    reveal_strlit("range_check");
    reveal_strlit("ecdsa");
    reveal_strlit("proof_hex");
    assert(ascii("memory_path"@)[0] != ascii("range_check"@)[0]);
}

/// True of every view a real unsigned 32-bit sequence has.
pub open spec fn wf_u32s(xs: Seq<int>) -> bool {
    forall|i: int| 0 <= i < xs.len() ==> 0 <= #[trigger] xs[i] <= 0xffffffff
}

proof fn lemma_str_member_roundtrip(cs: Seq<char>)
    ensures
        jas_str(Some(JsonV::Str(encode_utf8(cs)))) == Some(cs),
        wf_jsonv(JsonV::Str(encode_utf8(cs))),
{
    vstd::utf8::encode_utf8_valid_utf8(cs);
    vstd::utf8::encode_utf8_decode_utf8(cs);
}

proof fn lemma_ints_member_wf(xs: Seq<int>)
    requires
        wf_u32s(xs),
    ensures
        wf_jsonv(JsonV::Arr(ints_jsonv(xs))),
        jas_u32_list(Some(JsonV::Arr(ints_jsonv(xs)))) == Some(xs),
{
    lemma_ints_roundtrip(xs);
    assert forall|i: int| 0 <= i < ints_jsonv(xs).len() implies wf_jsonv(
        #[trigger] ints_jsonv(xs)[i],
    ) by {
        assert(ints_jsonv(xs)[i] == JsonV::Int(xs[i]));
    }
}

/// Law: a FRI record read back from its own document is itself.
pub proof fn lemma_fri_roundtrip(f: FriParametersV)
    requires
        wf_u32s(f.fri_step_list),
        0 <= f.last_layer_degree_bound <= 0xffffffff,
        0 <= f.n_queries <= 0xffffffff,
        0 <= f.proof_of_work_bits <= 0xffffffff,
    ensures
        fri_of_jsonv(fri_jsonv(f)) == Some(f),
        wf_jsonv(fri_jsonv(f)),
{
    lemma_parameters_keys();
    let ms = fri_jsonv(f)->Obj_0;
    assert(ms.len() == 4);
    lemma_jlookup_at(ms, ascii("fri_step_list"@), 0);
    lemma_jlookup_at(ms, ascii("last_layer_degree_bound"@), 1);
    lemma_jlookup_at(ms, ascii("n_queries"@), 2);
    lemma_jlookup_at(ms, ascii("proof_of_work_bits"@), 3);
    lemma_ints_member_wf(f.fri_step_list);
    assert(fri_of_jsonv(fri_jsonv(f)) == Some(f));
    assert forall|i: int| 0 <= i < ms.len() implies wf_jsonv((#[trigger] ms[i]).1) by {
        assert(wf_jsonv(ms[0].1));
        assert(wf_jsonv(ms[1].1));
        assert(wf_jsonv(ms[2].1));
        assert(wf_jsonv(ms[3].1));
    }
}

/// Law: a STARK record read back from its own document is itself.
pub proof fn lemma_stark_roundtrip(p: StarkParametersV)
    requires
        wf_u32s(p.fri.fri_step_list),
        0 <= p.fri.last_layer_degree_bound <= 0xffffffff,
        0 <= p.fri.n_queries <= 0xffffffff,
        0 <= p.fri.proof_of_work_bits <= 0xffffffff,
        i32::MIN <= p.log_n_cosets <= i32::MAX,
    ensures
        stark_of_jsonv(stark_jsonv(p)) == Some(p),
        wf_jsonv(stark_jsonv(p)),
{
    lemma_parameters_keys();
    lemma_fri_roundtrip(p.fri);
    let ms = stark_jsonv(p)->Obj_0;
    assert(ms.len() == 2);
    lemma_jlookup_at(ms, ascii("fri"@), 0);
    lemma_jlookup_at(ms, ascii("log_n_cosets"@), 1);
    assert(stark_of_jsonv(stark_jsonv(p)) == Some(p));
    assert forall|i: int| 0 <= i < ms.len() implies wf_jsonv((#[trigger] ms[i]).1) by {
        assert(wf_jsonv(ms[0].1));
        assert(wf_jsonv(ms[1].1));
    }
}

/// Law: a prover parameter record read back from its own document is itself.
pub proof fn lemma_parameters_roundtrip(p: ProverParametersV)
    requires
        wf_u32s(p.stark.fri.fri_step_list),
        0 <= p.stark.fri.last_layer_degree_bound <= 0xffffffff,
        0 <= p.stark.fri.n_queries <= 0xffffffff,
        0 <= p.stark.fri.proof_of_work_bits <= 0xffffffff,
        i32::MIN <= p.stark.log_n_cosets <= i32::MAX,
    ensures
        parameters_of_jsonv(parameters_jsonv(p)) == Some(p),
        wf_jsonv(parameters_jsonv(p)),
{
    lemma_parameters_keys();
    lemma_stark_roundtrip(p.stark);
    lemma_str_member_roundtrip(p.field);
    let ms = parameters_jsonv(p)->Obj_0;
    assert(ms.len() == 3);
    lemma_jlookup_at(ms, ascii("field"@), 0);
    lemma_jlookup_at(ms, ascii("stark"@), 1);
    lemma_jlookup_at(ms, ascii("use_extension_field"@), 2);
    assert(parameters_of_jsonv(parameters_jsonv(p)) == Some(p));
    assert forall|i: int| 0 <= i < ms.len() implies wf_jsonv((#[trigger] ms[i]).1) by {
        assert(wf_jsonv(ms[0].1));
        assert(wf_jsonv(ms[1].1));
        assert(wf_jsonv(ms[2].1));
    }
}

/// Law: a private input read back from its own document is itself.
pub proof fn lemma_private_input_roundtrip(p: PrivateInputV)
    requires
        wf_u32s(p.pedersen),
        wf_u32s(p.range_check),
        wf_u32s(p.ecdsa),
    ensures
        private_input_of_jsonv(private_input_jsonv(p)) == Some(p),
        wf_jsonv(private_input_jsonv(p)),
{
    lemma_private_input_keys();
    lemma_str_member_roundtrip(p.memory_path);
    lemma_str_member_roundtrip(p.trace_path);
    lemma_ints_member_wf(p.pedersen);
    lemma_ints_member_wf(p.range_check);
    lemma_ints_member_wf(p.ecdsa);
    let ms = private_input_jsonv(p)->Obj_0;
    assert(ms.len() == 5);
    lemma_jlookup_at(ms, ascii("memory_path"@), 0);
    lemma_jlookup_at(ms, ascii("trace_path"@), 1);
    lemma_jlookup_at(ms, ascii("pedersen"@), 2);
    lemma_jlookup_at(ms, ascii("range_check"@), 3);
    lemma_jlookup_at(ms, ascii("ecdsa"@), 4);
    assert(private_input_of_jsonv(private_input_jsonv(p)) == Some(p));
    assert forall|i: int| 0 <= i < ms.len() implies wf_jsonv((#[trigger] ms[i]).1) by {
        assert(wf_jsonv(ms[0].1));
        assert(wf_jsonv(ms[1].1));
        assert(wf_jsonv(ms[2].1));
        assert(wf_jsonv(ms[3].1));
        assert(wf_jsonv(ms[4].1));
    }
}

/// Law: a proof read back from its own document is itself.
pub proof fn lemma_proof_roundtrip(p: ProofV)
    ensures
        proof_of_jsonv(proof_jsonv(p)) == Some(p),
        wf_jsonv(proof_jsonv(p)),
{
    lemma_private_input_keys();
    lemma_str_member_roundtrip(p.proof_hex);
    let ms = proof_jsonv(p)->Obj_0;
    assert(ms.len() == 1);
    lemma_jlookup_at(ms, ascii("proof_hex"@), 0);
    assert(proof_of_jsonv(proof_jsonv(p)) == Some(p));
    assert forall|i: int| 0 <= i < ms.len() implies wf_jsonv((#[trigger] ms[i]).1) by {
        assert(wf_jsonv(ms[0].1));
    }
}

fn str_to_json(s: &String) -> (j: Json)
    ensures
        j@ == JsonV::Str(encode_utf8(s@)),
{
    Json::Str(s.as_str().as_bytes_vec())
}

fn parameters_to_json(p: &ProverParameters) -> (j: Json)
    ensures
        j@ == parameters_jsonv(p@),
{
    broadcast use lemma_mviews;

    proof {
        lemma_parameters_keys();
    }
    let mut fms: Vec<(Vec<u8>, Json)> = Vec::new();
    fms.push((key_bytes("fri_step_list"), u32s_to_json(&p.stark.fri.fri_step_list)));
    fms.push(
        (key_bytes("last_layer_degree_bound"), Json::Int(p.stark.fri.last_layer_degree_bound as i64)),
    );
    fms.push((key_bytes("n_queries"), Json::Int(p.stark.fri.n_queries as i64)));
    fms.push((key_bytes("proof_of_work_bits"), Json::Int(p.stark.fri.proof_of_work_bits as i64)));
    let fri = Json::Obj(fms);
    proof {
        assert(mviews(fri->Obj_0@) =~= fri_jsonv(p.stark.fri@)->Obj_0);
        assert(fri@ =~~= fri_jsonv(p.stark.fri@));
    }
    let mut sms: Vec<(Vec<u8>, Json)> = Vec::new();
    sms.push((key_bytes("fri"), fri));
    sms.push((key_bytes("log_n_cosets"), Json::Int(p.stark.log_n_cosets as i64)));
    let stark = Json::Obj(sms);
    proof {
        assert(mviews(stark->Obj_0@) =~= stark_jsonv(p.stark@)->Obj_0);
        assert(stark@ =~~= stark_jsonv(p.stark@));
    }
    let mut ms: Vec<(Vec<u8>, Json)> = Vec::new();
    ms.push((key_bytes("field"), str_to_json(&p.field)));
    ms.push((key_bytes("stark"), stark));
    ms.push((key_bytes("use_extension_field"), Json::Bool(p.use_extension_field)));
    let j = Json::Obj(ms);
    proof {
        assert(mviews(j->Obj_0@) =~= parameters_jsonv(p@)->Obj_0);
        assert(j@ =~~= parameters_jsonv(p@));
    }
    j
}

fn private_input_to_json(p: &PrivateInput) -> (j: Json)
    ensures
        j@ == private_input_jsonv(p@),
{
    broadcast use lemma_mviews;

    proof {
        lemma_private_input_keys();
    }
    let mut ms: Vec<(Vec<u8>, Json)> = Vec::new();
    ms.push((key_bytes("memory_path"), str_to_json(&p.memory_path)));
    ms.push((key_bytes("trace_path"), str_to_json(&p.trace_path)));
    ms.push((key_bytes("pedersen"), u32s_to_json(&p.pedersen)));
    ms.push((key_bytes("range_check"), u32s_to_json(&p.range_check)));
    ms.push((key_bytes("ecdsa"), u32s_to_json(&p.ecdsa)));
    let j = Json::Obj(ms);
    proof {
        assert(mviews(j->Obj_0@) =~= private_input_jsonv(p@)->Obj_0);
        assert(j@ =~~= private_input_jsonv(p@));
    }
    j
}

fn proof_to_json(p: &Proof) -> (j: Json)
    ensures
        j@ == proof_jsonv(p@),
{
    broadcast use lemma_mviews;

    proof {
        lemma_private_input_keys();
    }
    let mut ms: Vec<(Vec<u8>, Json)> = Vec::new();
    ms.push((key_bytes("proof_hex"), str_to_json(&p.proof_hex)));
    let j = Json::Obj(ms);
    proof {
        assert(mviews(j->Obj_0@) =~= proof_jsonv(p@)->Obj_0);
        assert(j@ =~~= proof_jsonv(p@));
    }
    j
}

fn str_of_json(j: &Json) -> (r: Option<String>)
    ensures
        ({
            let sp = jas_str(Some(j@));
            match r {
                Some(s) => sp == Some(s@),
                None => sp is None,
            }
        }),
{
    match j {
        Json::Str(b) => {
            let r = string_from_utf8(copy_bytes(b));
            proof {
                if r is Some {
                    vstd::utf8::encode_utf8_decode_utf8(r->Some_0@);
                }
            }
            r
        },
        _ => None,
    }
}

fn proof_of_json(j: &Json) -> (r: Option<Proof>)
    ensures
        ({
            let sp = proof_of_jsonv(j@);
            match r {
                Some(p) => sp == Some(p@),
                None => sp is None,
            }
        }),
{
    proof {
        lemma_private_input_keys();
    }
    match j {
        Json::Obj(ms) => {
            proof {
                assert(mviews(ms@).skip(0) =~= mviews(ms@));
            }
            match jlookup_exec(ms, &key_bytes("proof_hex"), 0) {
                Some(v) => match str_of_json(v) {
                    Some(s) => Some(Proof { proof_hex: s }),
                    None => None,
                },
                None => None,
            }
        },
        _ => None,
    }
}


/// The document a memory segment denotes.
pub open spec fn segment_jsonv(s: MemorySegmentV) -> JsonV {
    JsonV::Obj(
        seq![
            (ascii("begin_addr"@), JsonV::Int(s.begin_addr)),
            (ascii("stop_ptr"@), JsonV::Int(s.stop_ptr)),
        ],
    )
}

/// The memory segment a document denotes.
pub open spec fn segment_of_jsonv(j: JsonV) -> Option<MemorySegmentV> {
    match j {
        JsonV::Obj(ms) => {
            let ba = jas_u32(jlookup(ms, ascii("begin_addr"@)));
            let sp = jas_u32(jlookup(ms, ascii("stop_ptr"@)));
            if ba is Some && sp is Some {
                Some(MemorySegmentV { begin_addr: ba->Some_0, stop_ptr: sp->Some_0 })
            } else {
                None
            }
        },
        _ => None,
    }
}

/// The document the six named segments denote.
pub open spec fn segments_jsonv(s: MemorySegmentsV) -> JsonV {
    JsonV::Obj(
        seq![
            (ascii("program"@), segment_jsonv(s.program)),
            (ascii("execution"@), segment_jsonv(s.execution)),
            (ascii("output"@), segment_jsonv(s.output)),
            (ascii("pedersen"@), segment_jsonv(s.pedersen)),
            (ascii("range_check"@), segment_jsonv(s.range_check)),
            (ascii("ecdsa"@), segment_jsonv(s.ecdsa)),
        ],
    )
}

/// The six named segments a document denotes.
pub open spec fn segments_of_jsonv(j: JsonV) -> Option<MemorySegmentsV> {
    match j {
        JsonV::Obj(ms) => {
            let pr = match jlookup(ms, ascii("program"@)) {
                Some(x) => segment_of_jsonv(x),
                None => None,
            };
            let ex = match jlookup(ms, ascii("execution"@)) {
                Some(x) => segment_of_jsonv(x),
                None => None,
            };
            let ou = match jlookup(ms, ascii("output"@)) {
                Some(x) => segment_of_jsonv(x),
                None => None,
            };
            let pe = match jlookup(ms, ascii("pedersen"@)) {
                Some(x) => segment_of_jsonv(x),
                None => None,
            };
            let rc = match jlookup(ms, ascii("range_check"@)) {
                Some(x) => segment_of_jsonv(x),
                None => None,
            };
            let ec = match jlookup(ms, ascii("ecdsa"@)) {
                Some(x) => segment_of_jsonv(x),
                None => None,
            };
            if pr is Some && ex is Some && ou is Some && pe is Some && rc is Some && ec is Some {
                Some(
                    MemorySegmentsV {
                        program: pr->Some_0,
                        execution: ex->Some_0,
                        output: ou->Some_0,
                        pedersen: pe->Some_0,
                        range_check: rc->Some_0,
                        ecdsa: ec->Some_0,
                    },
                )
            } else {
                None
            }
        },
        _ => None,
    }
}

/// The document a public memory slot denotes.
pub open spec fn slot_jsonv(s: MemorySlotV) -> JsonV {
    JsonV::Obj(
        seq![
            (ascii("address"@), JsonV::Int(s.address)),
            (ascii("value"@), JsonV::Str(encode_utf8(s.value))),
            (ascii("page"@), JsonV::Int(s.page)),
        ],
    )
}

/// The public memory slot a document denotes.
pub open spec fn slot_of_jsonv(j: JsonV) -> Option<MemorySlotV> {
    match j {
        JsonV::Obj(ms) => {
            let ad = jas_u32(jlookup(ms, ascii("address"@)));
            let va = jas_str(jlookup(ms, ascii("value"@)));
            let pg = jas_u32(jlookup(ms, ascii("page"@)));
            if ad is Some && va is Some && pg is Some {
                Some(MemorySlotV { address: ad->Some_0, value: va->Some_0, page: pg->Some_0 })
            } else {
                None
            }
        },
        _ => None,
    }
}

/// The documents of a list of public memory slots.
pub open spec fn slots_jsonv(svs: Seq<MemorySlotV>) -> Seq<JsonV> {
    Seq::new(svs.len(), |i: int| slot_jsonv(svs[i]))
}

/// The public memory slots an element list denotes.
pub open spec fn slots_of(es: Seq<JsonV>) -> Option<Seq<MemorySlotV>>
    decreases es.len(),
{
    if es.len() == 0 {
        Some(Seq::empty())
    } else {
        match slot_of_jsonv(es[0]) {
            Some(sv) => match slots_of(es.drop_first()) {
                Some(t) => Some(seq![sv] + t),
                None => None,
            },
            None => None,
        }
    }
}

/// The members of a dynamic-parameter mapping.
pub open spec fn dynp_jsonv(ps: Seq<(Seq<char>, int)>) -> Seq<(Seq<u8>, JsonV)> {
    Seq::new(ps.len(), |i: int| (encode_utf8(ps[i].0), JsonV::Int(ps[i].1)))
}

/// The dynamic-parameter pairs a member list denotes.
pub open spec fn dynps_of(ms: Seq<(Seq<u8>, JsonV)>) -> Option<Seq<(Seq<char>, int)>>
    decreases ms.len(),
{
    if ms.len() == 0 {
        Some(Seq::empty())
    } else {
        let ok = valid_utf8(ms[0].0) && (ms[0].1 matches JsonV::Int(v) && 0 <= v <= 0xffffffff);
        if ok {
            match dynps_of(ms.drop_first()) {
                Some(t) => Some(seq![(decode_utf8(ms[0].0), ms[0].1->Int_0)] + t),
                None => None,
            }
        } else {
            None
        }
    }
}

/// The document a public input denotes.
pub open spec fn public_input_jsonv(p: PublicInputV) -> JsonV {
    JsonV::Obj(
        seq![
            (ascii("layout"@), layout_jsonv(p.layout)),
            (ascii("rc_min"@), JsonV::Int(p.rc_min)),
            (ascii("rc_max"@), JsonV::Int(p.rc_max)),
            (ascii("n_steps"@), JsonV::Int(p.n_steps)),
            (ascii("memory_segments"@), segments_jsonv(p.memory_segments)),
            (ascii("public_memory"@), JsonV::Arr(slots_jsonv(p.public_memory))),
            (
                ascii("dynamic_params"@),
                match p.dynamic_params {
                    Some(ps) => JsonV::Obj(dynp_jsonv(ps)),
                    None => JsonV::Null,
                },
            ),
        ],
    )
}

/// The public input a document denotes. A `dynamic_params` member that is
/// null, or absent altogether, reads back as an absent mapping.
pub open spec fn public_input_of_jsonv(j: JsonV) -> Option<PublicInputV> {
    match j {
        JsonV::Obj(ms) => {
            let la = match jlookup(ms, ascii("layout"@)) {
                Some(x) => layout_of_jsonv(x),
                None => None,
            };
            let rn = jas_u32(jlookup(ms, ascii("rc_min"@)));
            let rx = jas_u32(jlookup(ms, ascii("rc_max"@)));
            let ns = jas_u32(jlookup(ms, ascii("n_steps"@)));
            let sg = match jlookup(ms, ascii("memory_segments"@)) {
                Some(x) => segments_of_jsonv(x),
                None => None,
            };
            let pm = match jlookup(ms, ascii("public_memory"@)) {
                Some(JsonV::Arr(es)) => slots_of(es),
                _ => None,
            };
            let dp = match jlookup(ms, ascii("dynamic_params"@)) {
                None => Some(None),
                Some(JsonV::Null) => Some(None),
                Some(JsonV::Obj(dms)) => match dynps_of(dms) {
                    Some(ps) => Some(Some(ps)),
                    None => None,
                },
                Some(_) => None,
            };
            if la is Some && rn is Some && rx is Some && ns is Some && sg is Some && pm is Some
                && dp is Some {
                Some(
                    PublicInputV {
                        layout: la->Some_0,
                        rc_min: rn->Some_0,
                        rc_max: rx->Some_0,
                        n_steps: ns->Some_0,
                        memory_segments: sg->Some_0,
                        public_memory: pm->Some_0,
                        dynamic_params: dp->Some_0,
                    },
                )
            } else {
                None
            }
        },
        _ => None,
    }
}

proof fn lemma_public_input_keys()
    ensures
        "begin_addr".is_ascii(),
        "stop_ptr".is_ascii(),
        "program".is_ascii(),
        "execution".is_ascii(),
        "output".is_ascii(),
        "address".is_ascii(),
        "value".is_ascii(),
        "page".is_ascii(),
        "layout".is_ascii(),
        "rc_min".is_ascii(),
        "rc_max".is_ascii(),
        "n_steps".is_ascii(),
        "memory_segments".is_ascii(),
        "public_memory".is_ascii(),
        "dynamic_params".is_ascii(),
        ascii("begin_addr"@).len() == 10,
        ascii("stop_ptr"@).len() == 8,
        ascii("program"@).len() == 7,
        ascii("execution"@).len() == 9,
        ascii("output"@).len() == 6,
        ascii("address"@).len() == 7,
        ascii("value"@).len() == 5,
        ascii("page"@).len() == 4,
        ascii("layout"@).len() == 6,
        ascii("rc_min"@).len() == 6,
        ascii("rc_max"@).len() == 6,
        ascii("n_steps"@).len() == 7,
        ascii("memory_segments"@).len() == 15,
        ascii("public_memory"@).len() == 13,
        ascii("dynamic_params"@).len() == 14,
        ascii("layout"@) != ascii("rc_min"@),
        ascii("layout"@) != ascii("rc_max"@),
        ascii("rc_min"@) != ascii("rc_max"@),
{
    reveal_strlit("begin_addr");
    reveal_strlit("stop_ptr");
    reveal_strlit("program");
    reveal_strlit("execution");
    reveal_strlit("output");
    reveal_strlit("address");
    reveal_strlit("value");
    reveal_strlit("page");
    reveal_strlit("layout");
    reveal_strlit("rc_min");
    reveal_strlit("rc_max");
    reveal_strlit("n_steps");
    reveal_strlit("memory_segments");
    reveal_strlit("public_memory");
    reveal_strlit("dynamic_params");
    assert(ascii("layout"@)[0] != ascii("rc_min"@)[0]);
    assert(ascii("layout"@)[0] != ascii("rc_max"@)[0]);
    assert(ascii("rc_min"@)[4] != ascii("rc_max"@)[4]);
}

/// True of the view every real segment record has.
pub open spec fn wf_segment(s: MemorySegmentV) -> bool {
    0 <= s.begin_addr <= 0xffffffff && 0 <= s.stop_ptr <= 0xffffffff
}

/// True of the view every real segments record has.
pub open spec fn wf_segments(s: MemorySegmentsV) -> bool {
    wf_segment(s.program) && wf_segment(s.execution) && wf_segment(s.output) && wf_segment(
        s.pedersen,
    ) && wf_segment(s.range_check) && wf_segment(s.ecdsa)
}

/// True of the view every real slot sequence has.
pub open spec fn wf_slots(svs: Seq<MemorySlotV>) -> bool {
    forall|i: int|
        0 <= i < svs.len() ==> 0 <= (#[trigger] svs[i]).address <= 0xffffffff && 0 <= svs[i].page
            <= 0xffffffff
}

/// True of the view every real dynamic-parameter list has.
pub open spec fn wf_dynps(ps: Seq<(Seq<char>, int)>) -> bool {
    forall|i: int| 0 <= i < ps.len() ==> 0 <= (#[trigger] ps[i]).1 <= 0xffffffff
}

proof fn lemma_segment_roundtrip(s: MemorySegmentV)
    requires
        wf_segment(s),
    ensures
        segment_of_jsonv(segment_jsonv(s)) == Some(s),
        wf_jsonv(segment_jsonv(s)),
{
    lemma_public_input_keys();
    let ms = segment_jsonv(s)->Obj_0;
    lemma_jlookup_at(ms, ascii("begin_addr"@), 0);
    lemma_jlookup_at(ms, ascii("stop_ptr"@), 1);
    assert forall|i: int| 0 <= i < ms.len() implies wf_jsonv((#[trigger] ms[i]).1) by {
        assert(wf_jsonv(ms[0].1));
        assert(wf_jsonv(ms[1].1));
    }
}

proof fn lemma_segments_roundtrip(s: MemorySegmentsV)
    requires
        wf_segments(s),
    ensures
        segments_of_jsonv(segments_jsonv(s)) == Some(s),
        wf_jsonv(segments_jsonv(s)),
{
    lemma_public_input_keys();
    lemma_private_input_keys();
    lemma_segment_roundtrip(s.program);
    lemma_segment_roundtrip(s.execution);
    lemma_segment_roundtrip(s.output);
    lemma_segment_roundtrip(s.pedersen);
    lemma_segment_roundtrip(s.range_check);
    lemma_segment_roundtrip(s.ecdsa);
    let ms = segments_jsonv(s)->Obj_0;
    lemma_jlookup_at(ms, ascii("program"@), 0);
    lemma_jlookup_at(ms, ascii("execution"@), 1);
    lemma_jlookup_at(ms, ascii("output"@), 2);
    lemma_jlookup_at(ms, ascii("pedersen"@), 3);
    lemma_jlookup_at(ms, ascii("range_check"@), 4);
    lemma_jlookup_at(ms, ascii("ecdsa"@), 5);
    assert(segments_of_jsonv(segments_jsonv(s)) == Some(s));
    assert forall|i: int| 0 <= i < ms.len() implies wf_jsonv((#[trigger] ms[i]).1) by {
        assert(wf_jsonv(ms[0].1));
        assert(wf_jsonv(ms[1].1));
        assert(wf_jsonv(ms[2].1));
        assert(wf_jsonv(ms[3].1));
        assert(wf_jsonv(ms[4].1));
        assert(wf_jsonv(ms[5].1));
    }
}

proof fn lemma_slot_roundtrip(s: MemorySlotV)
    requires
        0 <= s.address <= 0xffffffff,
        0 <= s.page <= 0xffffffff,
    ensures
        slot_of_jsonv(slot_jsonv(s)) == Some(s),
        wf_jsonv(slot_jsonv(s)),
{
    lemma_public_input_keys();
    lemma_str_member_roundtrip(s.value);
    let ms = slot_jsonv(s)->Obj_0;
    lemma_jlookup_at(ms, ascii("address"@), 0);
    lemma_jlookup_at(ms, ascii("value"@), 1);
    lemma_jlookup_at(ms, ascii("page"@), 2);
    assert forall|i: int| 0 <= i < ms.len() implies wf_jsonv((#[trigger] ms[i]).1) by {
        assert(wf_jsonv(ms[0].1));
        assert(wf_jsonv(ms[1].1));
        assert(wf_jsonv(ms[2].1));
    }
}

proof fn lemma_slots_roundtrip(svs: Seq<MemorySlotV>)
    requires
        wf_slots(svs),
    ensures
        slots_of(slots_jsonv(svs)) == Some(svs),
        forall|i: int| 0 <= i < slots_jsonv(svs).len() ==> wf_jsonv(#[trigger] slots_jsonv(svs)[i]),
    decreases svs.len(),
{
    if svs.len() > 0 {
        lemma_slot_roundtrip(svs[0]);
        assert(wf_slots(svs.drop_first()));
        lemma_slots_roundtrip(svs.drop_first());
        assert(slots_jsonv(svs).drop_first() =~= slots_jsonv(svs.drop_first()));
        assert(seq![svs[0]] + svs.drop_first() =~= svs);
        assert forall|i: int| 0 <= i < slots_jsonv(svs).len() implies wf_jsonv(
            #[trigger] slots_jsonv(svs)[i],
        ) by {
            if i > 0 {
                assert(slots_jsonv(svs)[i] == slots_jsonv(svs.drop_first())[i - 1]);
            }
        }
    }
}

proof fn lemma_dynps_roundtrip(ps: Seq<(Seq<char>, int)>)
    requires
        wf_dynps(ps),
    ensures
        dynps_of(dynp_jsonv(ps)) == Some(ps),
        forall|i: int| 0 <= i < dynp_jsonv(ps).len() ==> wf_jsonv((#[trigger] dynp_jsonv(ps)[i]).1),
    decreases ps.len(),
{
    if ps.len() > 0 {
        vstd::utf8::encode_utf8_valid_utf8(ps[0].0);
        vstd::utf8::encode_utf8_decode_utf8(ps[0].0);
        assert(wf_dynps(ps.drop_first()));
        lemma_dynps_roundtrip(ps.drop_first());
        assert(dynp_jsonv(ps).drop_first() =~= dynp_jsonv(ps.drop_first()));
        assert(seq![(ps[0].0, ps[0].1)] + ps.drop_first() =~= ps);
        assert forall|i: int| 0 <= i < dynp_jsonv(ps).len() implies wf_jsonv(
            (#[trigger] dynp_jsonv(ps)[i]).1,
        ) by {
            assert(dynp_jsonv(ps)[i].1 == JsonV::Int(ps[i].1));
        }
    }
}

/// Law: a public input read back from its own document is itself.
pub proof fn lemma_public_input_roundtrip(p: PublicInputV)
    requires
        0 <= p.rc_min <= 0xffffffff,
        0 <= p.rc_max <= 0xffffffff,
        0 <= p.n_steps <= 0xffffffff,
        wf_segments(p.memory_segments),
        wf_slots(p.public_memory),
        p.dynamic_params matches Some(ps) ==> wf_dynps(ps),
    ensures
        public_input_of_jsonv(public_input_jsonv(p)) == Some(p),
        wf_jsonv(public_input_jsonv(p)),
{
    lemma_public_input_keys();
    lemma_layout_tags_ascii();
    lemma_segments_roundtrip(p.memory_segments);
    lemma_slots_roundtrip(p.public_memory);
    let ms = public_input_jsonv(p)->Obj_0;
    lemma_jlookup_at(ms, ascii("layout"@), 0);
    lemma_jlookup_at(ms, ascii("rc_min"@), 1);
    lemma_jlookup_at(ms, ascii("rc_max"@), 2);
    lemma_jlookup_at(ms, ascii("n_steps"@), 3);
    lemma_jlookup_at(ms, ascii("memory_segments"@), 4);
    lemma_jlookup_at(ms, ascii("public_memory"@), 5);
    lemma_jlookup_at(ms, ascii("dynamic_params"@), 6);
    lemma_layout_tags_exact(ascii(layout_tag(p.layout)));
    match p.dynamic_params {
        Some(ps) => {
            lemma_dynps_roundtrip(ps);
            assert(public_input_of_jsonv(public_input_jsonv(p)) == Some(p));
        },
        None => {
            assert(public_input_of_jsonv(public_input_jsonv(p)) == Some(p));
        },
    }
    assert forall|i: int| 0 <= i < ms.len() implies wf_jsonv((#[trigger] ms[i]).1) by {
        assert(wf_jsonv(ms[0].1));
        assert(wf_jsonv(ms[1].1));
        assert(wf_jsonv(ms[2].1));
        assert(wf_jsonv(ms[3].1));
        assert(wf_jsonv(ms[4].1));
        assert(wf_jsonv(ms[5].1)) by {
            assert forall|k: int| 0 <= k < slots_jsonv(p.public_memory).len() implies wf_jsonv(
                #[trigger] slots_jsonv(p.public_memory)[k],
            ) by {
                lemma_slots_roundtrip(p.public_memory);
            }
        }
        assert(wf_jsonv(ms[6].1)) by {
            match p.dynamic_params {
                Some(ps) => {
                    lemma_dynps_roundtrip(ps);
                },
                None => {},
            }
        }
    }
}

/// Law: a `dynamic_params` member that is absent or null reads back as an
/// absent mapping, and a present mapping reads back as a present one.
pub proof fn lemma_dynamic_params_absent(ms: Seq<(Seq<u8>, JsonV)>)
    requires
        public_input_of_jsonv(JsonV::Obj(ms)) is Some,
    ensures
        (public_input_of_jsonv(JsonV::Obj(ms))->Some_0.dynamic_params is None) <==> (jlookup(
            ms,
            ascii("dynamic_params"@),
        ) is None || jlookup(ms, ascii("dynamic_params"@)) == Some(JsonV::Null)),
{
}


fn segment_to_json(s: &MemorySegment) -> (j: Json)
    ensures
        j@ == segment_jsonv(s@),
{
    broadcast use lemma_mviews;

    proof {
        lemma_public_input_keys();
    }
    let mut ms: Vec<(Vec<u8>, Json)> = Vec::new();
    ms.push((key_bytes("begin_addr"), Json::Int(s.begin_addr as i64)));
    ms.push((key_bytes("stop_ptr"), Json::Int(s.stop_ptr as i64)));
    let j = Json::Obj(ms);
    proof {
        assert(mviews(j->Obj_0@) =~= segment_jsonv(s@)->Obj_0);
        assert(j@ =~~= segment_jsonv(s@));
    }
    j
}

fn segments_to_json(s: &MemorySegments) -> (j: Json)
    ensures
        j@ == segments_jsonv(s@),
{
    broadcast use lemma_mviews;

    proof {
        lemma_public_input_keys();
        lemma_private_input_keys();
    }
    let mut ms: Vec<(Vec<u8>, Json)> = Vec::new();
    ms.push((key_bytes("program"), segment_to_json(&s.program)));
    ms.push((key_bytes("execution"), segment_to_json(&s.execution)));
    ms.push((key_bytes("output"), segment_to_json(&s.output)));
    ms.push((key_bytes("pedersen"), segment_to_json(&s.pedersen)));
    ms.push((key_bytes("range_check"), segment_to_json(&s.range_check)));
    ms.push((key_bytes("ecdsa"), segment_to_json(&s.ecdsa)));
    let j = Json::Obj(ms);
    proof {
        assert(mviews(j->Obj_0@) =~= segments_jsonv(s@)->Obj_0);
        assert(j@ =~~= segments_jsonv(s@));
    }
    j
}

fn slot_to_json(s: &MemorySlot) -> (j: Json)
    ensures
        j@ == slot_jsonv(s@),
{
    broadcast use lemma_mviews;

    proof {
        lemma_public_input_keys();
    }
    let mut ms: Vec<(Vec<u8>, Json)> = Vec::new();
    ms.push((key_bytes("address"), Json::Int(s.address as i64)));
    ms.push((key_bytes("value"), str_to_json(&s.value)));
    ms.push((key_bytes("page"), Json::Int(s.page as i64)));
    let j = Json::Obj(ms);
    proof {
        assert(mviews(j->Obj_0@) =~= slot_jsonv(s@)->Obj_0);
        assert(j@ =~~= slot_jsonv(s@));
    }
    j
}

fn public_input_to_json(p: &PublicInput) -> (j: Json)
    ensures
        j@ == public_input_jsonv(p@),
{
    broadcast use lemma_mviews, lemma_jviews;

    proof {
        lemma_public_input_keys();
    }
    let mut slots: Vec<Json> = Vec::new();
    let mut i: usize = 0;
    while i < p.public_memory.len()
        invariant
            i <= p.public_memory@.len(),
            slots@.len() == i,
            forall|k: int| 0 <= k < i ==> jview(#[trigger] slots@[k]) == slot_jsonv(
                p.public_memory@[k]@,
            ),
        decreases p.public_memory@.len() - i,
    {
        let sj = slot_to_json(&p.public_memory[i]);
        slots.push(sj);
        i += 1;
    }
    proof {
        lemma_jviews(slots@);
        assert(jviews(slots@) =~= slots_jsonv(slot_views(p.public_memory@)));
    }
    let dp: Json = match &p.dynamic_params {
        Some(ps) => {
            let mut dms: Vec<(Vec<u8>, Json)> = Vec::new();
            let mut k: usize = 0;
            while k < ps.len()
                invariant
                    k <= ps@.len(),
                    dms@.len() == k,
                    mviews(dms@).len() == dms@.len(),
                    forall|q: int| 0 <= q < k ==> #[trigger] mviews(dms@)[q] == (
                        encode_utf8(ps@[q].0@),
                        JsonV::Int(ps@[q].1 as int),
                    ),
                decreases ps@.len() - k,
            {
                proof {
                    lemma_mviews(dms@);
                }
                let ghost pre = dms@;
                let kb = ps[k].0.as_str().as_bytes_vec();
                proof {
                    assert(kb@ == encode_utf8(ps@[k as int].0@));
                }
                dms.push((kb, Json::Int(ps[k].1 as i64)));
                proof {
                    lemma_mviews(dms@);
                    assert forall|q: int| 0 <= q < k + 1 implies #[trigger] mviews(dms@)[q] == (
                        encode_utf8(ps@[q].0@),
                        JsonV::Int(ps@[q].1 as int),
                    ) by {
                        assert(mviews(dms@)[q] == (dms@[q].0@, jview(dms@[q].1)));
                        if q < k {
                            assert(dms@[q] == pre[q]);
                            assert(mviews(pre)[q] == (pre[q].0@, jview(pre[q].1)));
                        } else {
                            assert(dms@[q].0@ == encode_utf8(ps@[q].0@));
                            assert(jview(dms@[q].1) == JsonV::Int(ps@[q].1 as int));
                        }
                    }
                }
                k += 1;
            }
            proof {
                lemma_mviews(dms@);
                assert(mviews(dms@) =~= dynp_jsonv(dynp_views(ps@)));
            }
            Json::Obj(dms)
        },
        None => Json::Null,
    };
    let mut ms: Vec<(Vec<u8>, Json)> = Vec::new();
    ms.push((key_bytes("layout"), layout_to_json(&p.layout)));
    ms.push((key_bytes("rc_min"), Json::Int(p.rc_min as i64)));
    ms.push((key_bytes("rc_max"), Json::Int(p.rc_max as i64)));
    ms.push((key_bytes("n_steps"), Json::Int(p.n_steps as i64)));
    ms.push((key_bytes("memory_segments"), segments_to_json(&p.memory_segments)));
    ms.push((key_bytes("public_memory"), Json::Arr(slots)));
    ms.push((key_bytes("dynamic_params"), dp));
    let j = Json::Obj(ms);
    proof {
        assert(mviews(j->Obj_0@) =~= public_input_jsonv(p@)->Obj_0);
        assert(j@ =~~= public_input_jsonv(p@));
    }
    j
}


fn u32_of_json(j: &Json) -> (r: Option<u32>)
    ensures
        ({
            let sp = jas_u32(Some(j@));
            match r {
                Some(v) => sp == Some(v as int),
                None => sp is None,
            }
        }),
{
    match j {
        Json::Int(v) => if 0 <= *v && *v <= 0xffffffff {
            Some(*v as u32)
        } else {
            None
        },
        _ => None,
    }
}

fn i32_of_json(j: &Json) -> (r: Option<i32>)
    ensures
        ({
            let sp = jas_i32(Some(j@));
            match r {
                Some(v) => sp == Some(v as int),
                None => sp is None,
            }
        }),
{
    match j {
        Json::Int(v) => if -0x80000000i64 <= *v && *v <= 0x7fffffffi64 {
            Some(*v as i32)
        } else {
            None
        },
        _ => None,
    }
}

fn fri_of_json(j: &Json) -> (r: Option<FriParameters>)
    ensures
        ({
            let sp = fri_of_jsonv(j@);
            match r {
                Some(f) => sp == Some(f@),
                None => sp is None,
            }
        }),
{
    proof {
        lemma_parameters_keys();
    }
    match j {
        Json::Obj(ms) => {
            proof {
                assert(mviews(ms@).skip(0) =~= mviews(ms@));
            }
            let sl = match jlookup_exec(ms, &key_bytes("fri_step_list"), 0) {
                Some(Json::Arr(es)) => u32s_of_json(es),
                _ => None,
            };
            let lb = match jlookup_exec(ms, &key_bytes("last_layer_degree_bound"), 0) {
                Some(x) => u32_of_json(x),
                None => None,
            };
            let nq = match jlookup_exec(ms, &key_bytes("n_queries"), 0) {
                Some(x) => u32_of_json(x),
                None => None,
            };
            let pb = match jlookup_exec(ms, &key_bytes("proof_of_work_bits"), 0) {
                Some(x) => u32_of_json(x),
                None => None,
            };
            match (sl, lb, nq, pb) {
                (Some(sl), Some(lb), Some(nq), Some(pb)) => Some(
                    FriParameters {
                        fri_step_list: sl,
                        last_layer_degree_bound: lb,
                        n_queries: nq,
                        proof_of_work_bits: pb,
                    },
                ),
                _ => None,
            }
        },
        _ => None,
    }
}

fn stark_of_json(j: &Json) -> (r: Option<StarkParameters>)
    ensures
        ({
            let sp = stark_of_jsonv(j@);
            match r {
                Some(p) => sp == Some(p@),
                None => sp is None,
            }
        }),
{
    proof {
        lemma_parameters_keys();
    }
    match j {
        Json::Obj(ms) => {
            proof {
                assert(mviews(ms@).skip(0) =~= mviews(ms@));
            }
            let fr = match jlookup_exec(ms, &key_bytes("fri"), 0) {
                Some(x) => fri_of_json(x),
                None => None,
            };
            let lc = match jlookup_exec(ms, &key_bytes("log_n_cosets"), 0) {
                Some(x) => i32_of_json(x),
                None => None,
            };
            match (fr, lc) {
                (Some(fr), Some(lc)) => Some(StarkParameters { fri: fr, log_n_cosets: lc }),
                _ => None,
            }
        },
        _ => None,
    }
}

fn parameters_of_json(j: &Json) -> (r: Option<ProverParameters>)
    ensures
        ({
            let sp = parameters_of_jsonv(j@);
            match r {
                Some(p) => sp == Some(p@),
                None => sp is None,
            }
        }),
{
    proof {
        lemma_parameters_keys();
    }
    match j {
        Json::Obj(ms) => {
            proof {
                assert(mviews(ms@).skip(0) =~= mviews(ms@));
            }
            let fd = match jlookup_exec(ms, &key_bytes("field"), 0) {
                Some(x) => str_of_json(x),
                None => None,
            };
            let st = match jlookup_exec(ms, &key_bytes("stark"), 0) {
                Some(x) => stark_of_json(x),
                None => None,
            };
            let ue = match jlookup_exec(ms, &key_bytes("use_extension_field"), 0) {
                Some(Json::Bool(b)) => Some(*b),
                _ => None,
            };
            match (fd, st, ue) {
                (Some(fd), Some(st), Some(ue)) => Some(
                    ProverParameters { field: fd, stark: st, use_extension_field: ue },
                ),
                _ => None,
            }
        },
        _ => None,
    }
}

fn private_input_of_json(j: &Json) -> (r: Option<PrivateInput>)
    ensures
        ({
            let sp = private_input_of_jsonv(j@);
            match r {
                Some(p) => sp == Some(p@),
                None => sp is None,
            }
        }),
{
    proof {
        lemma_private_input_keys();
    }
    match j {
        Json::Obj(ms) => {
            proof {
                assert(mviews(ms@).skip(0) =~= mviews(ms@));
            }
            let mp = match jlookup_exec(ms, &key_bytes("memory_path"), 0) {
                Some(x) => str_of_json(x),
                None => None,
            };
            let tp = match jlookup_exec(ms, &key_bytes("trace_path"), 0) {
                Some(x) => str_of_json(x),
                None => None,
            };
            let pd = match jlookup_exec(ms, &key_bytes("pedersen"), 0) {
                Some(Json::Arr(es)) => u32s_of_json(es),
                _ => None,
            };
            let rc = match jlookup_exec(ms, &key_bytes("range_check"), 0) {
                Some(Json::Arr(es)) => u32s_of_json(es),
                _ => None,
            };
            let ec = match jlookup_exec(ms, &key_bytes("ecdsa"), 0) {
                Some(Json::Arr(es)) => u32s_of_json(es),
                _ => None,
            };
            match (mp, tp, pd, rc, ec) {
                (Some(mp), Some(tp), Some(pd), Some(rc), Some(ec)) => Some(
                    PrivateInput {
                        memory_path: mp,
                        trace_path: tp,
                        pedersen: pd,
                        range_check: rc,
                        ecdsa: ec,
                    },
                ),
                _ => None,
            }
        },
        _ => None,
    }
}

fn segment_of_json(j: &Json) -> (r: Option<MemorySegment>)
    ensures
        ({
            let sp = segment_of_jsonv(j@);
            match r {
                Some(s) => sp == Some(s@),
                None => sp is None,
            }
        }),
{
    proof {
        lemma_public_input_keys();
    }
    match j {
        Json::Obj(ms) => {
            proof {
                assert(mviews(ms@).skip(0) =~= mviews(ms@));
            }
            let ba = match jlookup_exec(ms, &key_bytes("begin_addr"), 0) {
                Some(x) => u32_of_json(x),
                None => None,
            };
            let sp = match jlookup_exec(ms, &key_bytes("stop_ptr"), 0) {
                Some(x) => u32_of_json(x),
                None => None,
            };
            match (ba, sp) {
                (Some(ba), Some(sp)) => Some(MemorySegment { begin_addr: ba, stop_ptr: sp }),
                _ => None,
            }
        },
        _ => None,
    }
}

fn segments_of_json(j: &Json) -> (r: Option<MemorySegments>)
    ensures
        ({
            let sp = segments_of_jsonv(j@);
            match r {
                Some(s) => sp == Some(s@),
                None => sp is None,
            }
        }),
{
    proof {
        lemma_public_input_keys();
        lemma_private_input_keys();
    }
    match j {
        Json::Obj(ms) => {
            proof {
                assert(mviews(ms@).skip(0) =~= mviews(ms@));
            }
            let pr = match jlookup_exec(ms, &key_bytes("program"), 0) {
                Some(x) => segment_of_json(x),
                None => None,
            };
            let ex = match jlookup_exec(ms, &key_bytes("execution"), 0) {
                Some(x) => segment_of_json(x),
                None => None,
            };
            let ou = match jlookup_exec(ms, &key_bytes("output"), 0) {
                Some(x) => segment_of_json(x),
                None => None,
            };
            let pe = match jlookup_exec(ms, &key_bytes("pedersen"), 0) {
                Some(x) => segment_of_json(x),
                None => None,
            };
            let rc = match jlookup_exec(ms, &key_bytes("range_check"), 0) {
                Some(x) => segment_of_json(x),
                None => None,
            };
            let ec = match jlookup_exec(ms, &key_bytes("ecdsa"), 0) {
                Some(x) => segment_of_json(x),
                None => None,
            };
            match (pr, ex, ou, pe, rc, ec) {
                (Some(pr), Some(ex), Some(ou), Some(pe), Some(rc), Some(ec)) => Some(
                    MemorySegments {
                        program: pr,
                        execution: ex,
                        output: ou,
                        pedersen: pe,
                        range_check: rc,
                        ecdsa: ec,
                    },
                ),
                _ => None,
            }
        },
        _ => None,
    }
}

fn slot_of_json(j: &Json) -> (r: Option<MemorySlot>)
    ensures
        ({
            let sp = slot_of_jsonv(j@);
            match r {
                Some(s) => sp == Some(s@),
                None => sp is None,
            }
        }),
{
    proof {
        lemma_public_input_keys();
    }
    match j {
        Json::Obj(ms) => {
            proof {
                assert(mviews(ms@).skip(0) =~= mviews(ms@));
            }
            let ad = match jlookup_exec(ms, &key_bytes("address"), 0) {
                Some(x) => u32_of_json(x),
                None => None,
            };
            let va = match jlookup_exec(ms, &key_bytes("value"), 0) {
                Some(x) => str_of_json(x),
                None => None,
            };
            let pg = match jlookup_exec(ms, &key_bytes("page"), 0) {
                Some(x) => u32_of_json(x),
                None => None,
            };
            match (ad, va, pg) {
                (Some(ad), Some(va), Some(pg)) => Some(
                    MemorySlot { address: ad, value: va, page: pg },
                ),
                _ => None,
            }
        },
        _ => None,
    }
}

proof fn lemma_slots_of_bad(es: Seq<JsonV>, i: int)
    requires
        0 <= i < es.len(),
        slot_of_jsonv(es[i]) is None,
    ensures
        slots_of(es) is None,
    decreases i,
{
    if i > 0 {
        lemma_slots_of_bad(es.drop_first(), i - 1);
    }
}

proof fn lemma_slots_of_all(es: Seq<JsonV>, svs: Seq<MemorySlotV>)
    requires
        es.len() == svs.len(),
        forall|k: int| 0 <= k < es.len() ==> slot_of_jsonv(#[trigger] es[k]) == Some(svs[k]),
    ensures
        slots_of(es) == Some(svs),
    decreases es.len(),
{
    if es.len() > 0 {
        assert(forall|k: int|
            0 <= k < es.drop_first().len() ==> (#[trigger] es.drop_first()[k]) == es[k + 1]);
        lemma_slots_of_all(es.drop_first(), svs.drop_first());
        assert(seq![svs[0]] + svs.drop_first() =~= svs);
    }
}

proof fn lemma_dynps_of_bad(ms: Seq<(Seq<u8>, JsonV)>, i: int)
    requires
        0 <= i < ms.len(),
        !(valid_utf8(ms[i].0) && (ms[i].1 matches JsonV::Int(v) && 0 <= v <= 0xffffffff)),
    ensures
        dynps_of(ms) is None,
    decreases i,
{
    if i > 0 {
        lemma_dynps_of_bad(ms.drop_first(), i - 1);
    }
}

proof fn lemma_dynps_of_all(ms: Seq<(Seq<u8>, JsonV)>, ps: Seq<(Seq<char>, int)>)
    requires
        ms.len() == ps.len(),
        forall|k: int|
            0 <= k < ms.len() ==> valid_utf8((#[trigger] ms[k]).0) && ms[k].1 == JsonV::Int(
                ps[k].1,
            ) && decode_utf8(ms[k].0) == ps[k].0 && 0 <= ps[k].1 <= 0xffffffff,
    ensures
        dynps_of(ms) == Some(ps),
    decreases ms.len(),
{
    if ms.len() > 0 {
        assert(forall|k: int|
            0 <= k < ms.drop_first().len() ==> (#[trigger] ms.drop_first()[k]) == ms[k + 1]);
        lemma_dynps_of_all(ms.drop_first(), ps.drop_first());
        assert(seq![(ps[0].0, ps[0].1)] + ps.drop_first() =~= ps);
    }
}

fn public_input_of_json(j: &Json) -> (r: Option<PublicInput>)
    ensures
        ({
            let sp = public_input_of_jsonv(j@);
            match r {
                Some(p) => sp == Some(p@),
                None => sp is None,
            }
        }),
{
    proof {
        lemma_public_input_keys();
    }
    match j {
        Json::Obj(ms) => {
            proof {
                assert(mviews(ms@).skip(0) =~= mviews(ms@));
            }
            let la = match jlookup_exec(ms, &key_bytes("layout"), 0) {
                Some(x) => layout_of_json(x),
                None => None,
            };
            let rn = match jlookup_exec(ms, &key_bytes("rc_min"), 0) {
                Some(x) => u32_of_json(x),
                None => None,
            };
            let rx = match jlookup_exec(ms, &key_bytes("rc_max"), 0) {
                Some(x) => u32_of_json(x),
                None => None,
            };
            let ns = match jlookup_exec(ms, &key_bytes("n_steps"), 0) {
                Some(x) => u32_of_json(x),
                None => None,
            };
            let sg = match jlookup_exec(ms, &key_bytes("memory_segments"), 0) {
                Some(x) => segments_of_json(x),
                None => None,
            };
            let pm: Option<Vec<MemorySlot>> = match jlookup_exec(ms, &key_bytes("public_memory"), 0) {
                Some(Json::Arr(es)) => slots_vec_of_json(es),
                _ => None,
            };
            let dp: Option<Option<Vec<(String, u32)>>> = match jlookup_exec(
                ms,
                &key_bytes("dynamic_params"),
                0,
            ) {
                None => Some(None),
                Some(Json::Null) => Some(None),
                Some(Json::Obj(dms)) => match dynps_vec_of_json(dms) {
                    Some(ps) => Some(Some(ps)),
                    None => None,
                },
                Some(_) => None,
            };
            match (la, rn, rx, ns, sg, pm, dp) {
                (Some(la), Some(rn), Some(rx), Some(ns), Some(sg), Some(pm), Some(dp)) => Some(
                    PublicInput {
                        layout: la,
                        rc_min: rn,
                        rc_max: rx,
                        n_steps: ns,
                        memory_segments: sg,
                        public_memory: pm,
                        dynamic_params: dp,
                    },
                ),
                _ => None,
            }
        },
        _ => None,
    }
}

fn slots_vec_of_json(es: &Vec<Json>) -> (r: Option<Vec<MemorySlot>>)
    ensures
        ({
            let sp = slots_of(jviews(es@));
            match r {
                Some(v) => sp == Some(slot_views(v@)),
                None => sp is None,
            }
        }),
{
    let mut out: Vec<MemorySlot> = Vec::new();
    let mut i: usize = 0;
    while i < es.len()
        invariant
            i <= es@.len(),
            out@.len() == i,
            forall|k: int| 0 <= k < i ==> slot_of_jsonv(jviews(es@)[k]) == Some(
                (#[trigger] out@[k])@,
            ),
        decreases es@.len() - i,
    {
        proof {
            lemma_jviews(es@);
        }
        match slot_of_json(&es[i]) {
            Some(s) => {
                out.push(s);
                proof {
                    assert(jviews(es@)[i as int] == jview(es@[i as int]));
                    assert(slot_of_jsonv(jviews(es@)[i as int]) == Some(out@[i as int]@));
                }
            },
            None => {
                proof {
                    lemma_jviews(es@);
                    lemma_slots_of_bad(jviews(es@), i as int);
                }
                return None;
            },
        }
        i += 1;
    }
    proof {
        lemma_jviews(es@);
        assert forall|k: int| 0 <= k < jviews(es@).len() implies slot_of_jsonv(
            #[trigger] jviews(es@)[k],
        ) == Some(slot_views(out@)[k]) by {
            assert(slot_views(out@)[k] == out@[k]@);
        }
        lemma_slots_of_all(jviews(es@), slot_views(out@));
    }
    Some(out)
}

/// One decoded dynamic-parameter pair matches its member.
pub open spec fn dynp_elem_ok(m: (Seq<u8>, JsonV), p: (String, u32)) -> bool {
    valid_utf8(m.0) && m.1 == JsonV::Int(p.1 as int) && decode_utf8(m.0) == p.0@
}

fn dynps_vec_of_json(dms: &Vec<(Vec<u8>, Json)>) -> (r: Option<Vec<(String, u32)>>)
    ensures
        ({
            let sp = dynps_of(mviews(dms@));
            match r {
                Some(v) => sp == Some(dynp_views(v@)),
                None => sp is None,
            }
        }),
{
    proof {
        lemma_mviews(dms@);
    }
    let mut out: Vec<(String, u32)> = Vec::new();
    let mut i: usize = 0;
    while i < dms.len()
        invariant
            i <= dms@.len(),
            out@.len() == i,
            mviews(dms@).len() == dms@.len(),
            forall|k: int| 0 <= k < i ==> dynp_elem_ok(mviews(dms@)[k], #[trigger] out@[k]),
        decreases dms@.len() - i,
    {
        proof {
            lemma_mviews(dms@);
        }
        let ks = string_from_utf8(copy_bytes(&dms[i].0));
        let kv = match &dms[i].1 {
            Json::Int(v) => if 0 <= *v && *v <= 0xffffffff {
                Some(*v as u32)
            } else {
                None
            },
            _ => None,
        };
        let ghost oldout = out@;
        match (ks, kv) {
            (Some(ks), Some(kv)) => {
                let ghost gk = ks@;
                proof {
                    vstd::utf8::encode_utf8_decode_utf8(ks@);
                }
                out.push((ks, kv));
                proof {
                    assert(out@[i as int].0@ == gk && out@[i as int].1 == kv);
                    assert(mviews(dms@)[i as int] == (dms@[i as int].0@, jview(dms@[i as int].1)));
                    assert(dynp_elem_ok(mviews(dms@)[i as int], out@[i as int]));
                    assert forall|k: int| 0 <= k < i + 1 implies dynp_elem_ok(
                        mviews(dms@)[k],
                        #[trigger] out@[k],
                    ) by {
                        if k < i {
                            assert(out@[k] == oldout[k]);
                        }
                    }
                }
            },
            _ => {
                proof {
                    lemma_mviews(dms@);
                    lemma_dynps_of_bad(mviews(dms@), i as int);
                }
                return None;
            },
        }
        i += 1;
    }
    proof {
        lemma_mviews(dms@);
        assert forall|k: int| 0 <= k < mviews(dms@).len() implies valid_utf8(
            (#[trigger] mviews(dms@)[k]).0,
        ) && mviews(dms@)[k].1 == JsonV::Int(dynp_views(out@)[k].1) && decode_utf8(
            mviews(dms@)[k].0,
        ) == dynp_views(out@)[k].0 && 0 <= dynp_views(out@)[k].1 <= 0xffffffff by {
            assert(dynp_elem_ok(mviews(dms@)[k], out@[k]));
            assert(dynp_views(out@)[k] == (out@[k].0@, out@[k].1 as int));
        }
        lemma_dynps_of_all(mviews(dms@), dynp_views(out@));
    }
    Some(out)
}


/// The prover configuration a text denotes.
pub open spec fn config_of_doc(bs: Seq<u8>) -> Option<ProverConfigV> {
    match parse_doc(bs) {
        Some(j) => config_of_jsonv(j),
        None => None,
    }
}

/// The prover parameter record a text denotes.
pub open spec fn parameters_of_doc(bs: Seq<u8>) -> Option<ProverParametersV> {
    match parse_doc(bs) {
        Some(j) => parameters_of_jsonv(j),
        None => None,
    }
}

/// The private input a text denotes.
pub open spec fn private_input_of_doc(bs: Seq<u8>) -> Option<PrivateInputV> {
    match parse_doc(bs) {
        Some(j) => private_input_of_jsonv(j),
        None => None,
    }
}

/// The public input a text denotes.
pub open spec fn public_input_of_doc(bs: Seq<u8>) -> Option<PublicInputV> {
    match parse_doc(bs) {
        Some(j) => public_input_of_jsonv(j),
        None => None,
    }
}

/// The proof a text denotes.
pub open spec fn proof_of_doc(bs: Seq<u8>) -> Option<ProofV> {
    match parse_doc(bs) {
        Some(j) => proof_of_jsonv(j),
        None => None,
    }
}

/// Serializes a prover configuration to its canonical text.
pub fn config_to_bytes(c: &ProverConfig) -> (r: Vec<u8>)
    ensures
        r@ == print_json(config_jsonv(c@)),
{
    encode_doc(&config_to_json(c))
}

/// Serializes a prover parameter record to its canonical text.
pub fn parameters_to_bytes(p: &ProverParameters) -> (r: Vec<u8>)
    ensures
        r@ == print_json(parameters_jsonv(p@)),
{
    encode_doc(&parameters_to_json(p))
}

/// Serializes a private input to its canonical text.
pub fn private_input_to_bytes(p: &PrivateInput) -> (r: Vec<u8>)
    ensures
        r@ == print_json(private_input_jsonv(p@)),
{
    encode_doc(&private_input_to_json(p))
}

/// Serializes a public input to its canonical text.
pub fn public_input_to_bytes(p: &PublicInput) -> (r: Vec<u8>)
    ensures
        r@ == print_json(public_input_jsonv(p@)),
{
    encode_doc(&public_input_to_json(p))
}

/// Serializes a proof to its canonical text.
pub fn proof_to_bytes(p: &Proof) -> (r: Vec<u8>)
    ensures
        r@ == print_json(proof_jsonv(p@)),
{
    encode_doc(&proof_to_json(p))
}

/// Deserializes a prover configuration.
pub fn config_from_bytes(b: &Vec<u8>) -> (r: Option<ProverConfig>)
    ensures
        ({
            let sp = config_of_doc(b@);
            match r {
                Some(c) => sp == Some(c@),
                None => sp is None,
            }
        }),
{
    match decode_doc(b) {
        Some(j) => config_of_json(&j),
        None => None,
    }
}

/// Deserializes a prover parameter record.
pub fn parameters_from_bytes(b: &Vec<u8>) -> (r: Option<ProverParameters>)
    ensures
        ({
            let sp = parameters_of_doc(b@);
            match r {
                Some(p) => sp == Some(p@),
                None => sp is None,
            }
        }),
{
    match decode_doc(b) {
        Some(j) => parameters_of_json(&j),
        None => None,
    }
}

/// Deserializes a private input.
pub fn private_input_from_bytes(b: &Vec<u8>) -> (r: Option<PrivateInput>)
    ensures
        ({
            let sp = private_input_of_doc(b@);
            match r {
                Some(p) => sp == Some(p@),
                None => sp is None,
            }
        }),
{
    match decode_doc(b) {
        Some(j) => private_input_of_json(&j),
        None => None,
    }
}

/// Deserializes a public input.
pub fn public_input_from_bytes(b: &Vec<u8>) -> (r: Option<PublicInput>)
    ensures
        ({
            let sp = public_input_of_doc(b@);
            match r {
                Some(p) => sp == Some(p@),
                None => sp is None,
            }
        }),
{
    match decode_doc(b) {
        Some(j) => public_input_of_json(&j),
        None => None,
    }
}

/// Deserializes a proof. Unknown members of the document are ignored.
pub fn proof_from_bytes(b: &Vec<u8>) -> (r: Option<Proof>)
    ensures
        ({
            let sp = proof_of_doc(b@);
            match r {
                Some(p) => sp == Some(p@),
                None => sp is None,
            }
        }),
{
    match decode_doc(b) {
        Some(j) => proof_of_json(&j),
        None => None,
    }
}

/// Law: serializing a prover configuration and deserializing the text gives
/// back the original, field for field.
pub proof fn lemma_config_codec_roundtrip(c: ProverConfigV)
    requires
        i32::MIN <= c.constraint_polynomial_task_size <= i32::MAX,
        i32::MIN <= c.n_out_of_memory_merkle_layers <= i32::MAX,
        i32::MIN <= c.table_prover_n_tasks_per_segment <= i32::MAX,
    ensures
        config_of_doc(print_json(config_jsonv(c))) == Some(c),
{
    lemma_config_roundtrip(c);
    lemma_print_parse_roundtrip(config_jsonv(c));
}

/// Law: serializing a prover parameter record and deserializing the text
/// gives back the original, field for field.
pub proof fn lemma_parameters_codec_roundtrip(p: ProverParametersV)
    requires
        wf_u32s(p.stark.fri.fri_step_list),
        0 <= p.stark.fri.last_layer_degree_bound <= 0xffffffff,
        0 <= p.stark.fri.n_queries <= 0xffffffff,
        0 <= p.stark.fri.proof_of_work_bits <= 0xffffffff,
        i32::MIN <= p.stark.log_n_cosets <= i32::MAX,
    ensures
        parameters_of_doc(print_json(parameters_jsonv(p))) == Some(p),
{
    lemma_parameters_roundtrip(p);
    lemma_print_parse_roundtrip(parameters_jsonv(p));
}

/// Law: serializing a private input and deserializing the text gives back
/// the original, field for field.
pub proof fn lemma_private_input_codec_roundtrip(p: PrivateInputV)
    requires
        wf_u32s(p.pedersen),
        wf_u32s(p.range_check),
        wf_u32s(p.ecdsa),
    ensures
        private_input_of_doc(print_json(private_input_jsonv(p))) == Some(p),
{
    lemma_private_input_roundtrip(p);
    lemma_print_parse_roundtrip(private_input_jsonv(p));
}

/// Law: serializing a public input and deserializing the text gives back the
/// original, field for field.
pub proof fn lemma_public_input_codec_roundtrip(p: PublicInputV)
    requires
        0 <= p.rc_min <= 0xffffffff,
        0 <= p.rc_max <= 0xffffffff,
        0 <= p.n_steps <= 0xffffffff,
        wf_segments(p.memory_segments),
        wf_slots(p.public_memory),
        p.dynamic_params matches Some(ps) ==> wf_dynps(ps),
    ensures
        public_input_of_doc(print_json(public_input_jsonv(p))) == Some(p),
{
    lemma_public_input_roundtrip(p);
    lemma_print_parse_roundtrip(public_input_jsonv(p));
}

/// Law: serializing a proof and deserializing the text gives back the
/// original.
pub proof fn lemma_proof_codec_roundtrip(p: ProofV)
    ensures
        proof_of_doc(print_json(proof_jsonv(p))) == Some(p),
{
    lemma_proof_roundtrip(p);
    lemma_print_parse_roundtrip(proof_jsonv(p));
}

} // verus!
