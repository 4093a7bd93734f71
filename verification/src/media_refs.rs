//! Media references between the steps of the asset lab graph: which inputs
//! of a step take an earlier version of the same asset, which step produced
//! each version, and the links drawn between them.

use vstd::prelude::*;
use crate::model::{Asset, ProviderEntry, ProviderInputField, ProviderInputType};
use crate::lab_model::{AssetLabNode, GenerationRecord, GenerativeConfig, InputValue, SourceFrameReference};
use crate::lab::{generation_ref_for, provider_with, asset_lab_input_is_media_link, asset_lab_node_provider};
use crate::labels::{input_label_text, name_label, asset_lab_input_label, name_label_exec};
use crate::natural_spec::{lex_sign, lemma_lex_sign_antisymmetric};
use crate::natural::lex_sign_exec;
use crate::text::chars_of;
use crate::sorting::{sort_by, insert_by, lemma_insert_by_at, lemma_sort_by_step};

verus! {

/// An input of a step that takes a version of the asset.
#[derive(Clone, Debug)]
pub struct AssetLabMediaRefInput {
    pub label: String,
    pub version: String,
}

/// A link from the step that produced a version to a step that takes it.
#[derive(Clone, Debug)]
pub struct AssetLabMediaRefLink {
    pub source_node_id: u128,
    pub target_node_id: u128,
    pub label: String,
    pub port_index: usize,
    pub port_count: usize,
}

/// A media reference as values: its label and the version it takes.
pub open spec fn media_ref_view(r: AssetLabMediaRefInput) -> (Seq<char>, Seq<char>) {
    (r.label@, r.version@)
}

/// The first binding named `name`.
pub open spec fn binding_named(bindings: Seq<(String, InputValue)>, name: Seq<char>) -> Option<
    InputValue,
>
    decreases bindings.len(),
{
    if bindings.len() == 0 {
        None
    } else if bindings[0].0@ == name {
        Some(bindings[0].1)
    } else {
        binding_named(bindings.drop_first(), name)
    }
}

/// The first provider input named `name`.
pub open spec fn input_named(inputs: Seq<ProviderInputField>, name: Seq<char>) -> Option<
    ProviderInputField,
>
    decreases inputs.len(),
{
    if inputs.len() == 0 {
        None
    } else if inputs[0].name@ == name {
        Some(inputs[0])
    } else {
        input_named(inputs.drop_first(), name)
    }
}

/// Whether a reference with frame choice `frame` suits an input of type `t`:
/// an image input takes any reference, video and audio inputs whole media.
pub open spec fn reference_fits(t: ProviderInputType, frame: Option<SourceFrameReference>) -> bool {
    match t {
        ProviderInputType::Image => true,
        ProviderInputType::Video => frame is None,
        ProviderInputType::Audio => frame is None,
        _ => false,
    }
}

/// The (label, version) that provider input `input` takes from `asset`,
/// when the step binds it to a suitable version of that asset.
pub open spec fn provider_ref(
    asset: Asset,
    bindings: Seq<(String, InputValue)>,
    input: ProviderInputField,
) -> Option<(Seq<char>, Seq<char>)> {
    match binding_named(bindings, input.name@) {
        Some(InputValue::GenerationRef { asset_id, version, frame_reference }) => if asset_id
            == asset.id && generation_ref_for(asset, input, "__probe__"@) is Some && reference_fits(
            input.input_type,
            frame_reference,
        ) {
            Some((input_label_text(input.label@, input.name@), version@))
        } else {
            None
        },
        _ => None,
    }
}

/// The references taken through the provider's inputs, in input order.
pub open spec fn provider_refs(
    asset: Asset,
    bindings: Seq<(String, InputValue)>,
    inputs: Seq<ProviderInputField>,
) -> Seq<(Seq<char>, Seq<char>)>
    decreases inputs.len(),
{
    if inputs.len() == 0 {
        Seq::empty()
    } else {
        let rest = provider_refs(asset, bindings, inputs.drop_last());
        match provider_ref(asset, bindings, inputs.last()) {
            Some(r) => rest.push(r),
            None => rest,
        }
    }
}

/// The names of the provider inputs through which a reference is taken.
pub open spec fn used_names(
    asset: Asset,
    bindings: Seq<(String, InputValue)>,
    inputs: Seq<ProviderInputField>,
) -> Seq<Seq<char>>
    decreases inputs.len(),
{
    if inputs.len() == 0 {
        Seq::empty()
    } else {
        let rest = used_names(asset, bindings, inputs.drop_last());
        match provider_ref(asset, bindings, inputs.last()) {
            Some(r) => rest.push(inputs.last().name@),
            None => rest,
        }
    }
}

/// The other bindings that take a version of `asset`, as (name, version),
/// in binding order.
pub open spec fn leftover_refs(
    asset: Asset,
    bindings: Seq<(String, InputValue)>,
    used: Seq<Seq<char>>,
) -> Seq<(Seq<char>, Seq<char>)>
    decreases bindings.len(),
{
    if bindings.len() == 0 {
        Seq::empty()
    } else {
        let rest = leftover_refs(asset, bindings.drop_last(), used);
        let b = bindings.last();
        match b.1 {
            InputValue::GenerationRef { asset_id, version, .. } => if asset_id == asset.id
                && !used.contains(b.0@) {
                rest.push((b.0@, version@))
            } else {
                rest
            },
            _ => rest,
        }
    }
}

/// Whether leftover `a` comes after leftover `b`: by code-point order of the
/// names.
pub open spec fn name_after(a: (Seq<char>, Seq<char>), b: (Seq<char>, Seq<char>)) -> bool {
    lex_sign(a.0, b.0) > 0
}

/// The label of a leftover reference: the provider's label for an input of
/// that name, else one made from the name.
pub open spec fn leftover_label(provider: Option<ProviderEntry>, name: Seq<char>) -> Seq<char> {
    match provider {
        Some(p) => match input_named(p.inputs@, name) {
            Some(input) => input_label_text(input.label@, input.name@),
            None => name_label(name),
        },
        None => name_label(name),
    }
}

/// The media references of a step, in port order: those taken through the
/// provider's inputs in input order, then the other bindings to versions of
/// the asset by name, labelled by the provider's input of that name or by
/// the name itself.
pub open spec fn ordered_media_refs(
    asset: Asset,
    node: AssetLabNode,
    provider: Option<ProviderEntry>,
) -> Seq<(Seq<char>, Seq<char>)> {
    let bindings = node.inputs@;
    let (first, used) = match provider {
        Some(p) => (provider_refs(asset, bindings, p.inputs@), used_names(asset, bindings, p.inputs@)),
        None => (Seq::empty(), Seq::empty()),
    };
    let rest = sort_by(
        leftover_refs(asset, bindings, used),
        |a: (Seq<char>, Seq<char>), b: (Seq<char>, Seq<char>)| name_after(a, b),
    );
    first + rest.map_values(
        |e: (Seq<char>, Seq<char>)| (leftover_label(provider, e.0), e.1),
    )
}

/// The first binding named `name`.
pub(crate) fn find_binding<'a>(bindings: &'a Vec<(String, InputValue)>, name: &String) -> (r: Option<
    &'a InputValue,
>)
    ensures
        match r {
            Some(v) => binding_named(bindings@, name@) == Some(*v),
            None => binding_named(bindings@, name@) is None,
        },
{
    let mut i: usize = 0;
    assert(bindings@.skip(0) =~= bindings@);
    while i < bindings.len()
        invariant
            i <= bindings.len(),
            binding_named(bindings@, name@) == binding_named(bindings@.skip(i as int), name@),
        decreases bindings.len() - i,
    {
        assert(bindings@.skip(i as int).drop_first() =~= bindings@.skip(i + 1));
        if bindings[i].0 == *name {
            return Some(&bindings[i].1);
        }
        i = i + 1;
    }
    None
}

/// The first provider input named `name`.
fn find_input_named<'a>(inputs: &'a Vec<ProviderInputField>, name: &String) -> (r: Option<
    &'a ProviderInputField,
>)
    ensures
        match r {
            Some(v) => input_named(inputs@, name@) == Some(*v),
            None => input_named(inputs@, name@) is None,
        },
{
    let mut i: usize = 0;
    assert(inputs@.skip(0) =~= inputs@);
    while i < inputs.len()
        invariant
            i <= inputs.len(),
            input_named(inputs@, name@) == input_named(inputs@.skip(i as int), name@),
        decreases inputs.len() - i,
    {
        assert(inputs@.skip(i as int).drop_first() =~= inputs@.skip(i + 1));
        if inputs[i].name == *name {
            return Some(&inputs[i]);
        }
        i = i + 1;
    }
    None
}

/// Whether a reference with frame choice `frame` suits an input of type `t`.
fn reference_fits_exec(t: &ProviderInputType, frame: &Option<SourceFrameReference>) -> (r: bool)
    ensures
        r == reference_fits(*t, *frame),
{
    match t {
        ProviderInputType::Image => true,
        ProviderInputType::Video => frame.is_none(),
        ProviderInputType::Audio => frame.is_none(),
        _ => false,
    }
}

/// Whether `names` holds `name`.
fn holds_name(names: &Vec<String>, name: &String) -> (r: bool)
    ensures
        r == names@.map_values(|s: String| s@).contains(name@),
{
    let ghost views = names@.map_values(|s: String| s@);
    let mut i: usize = 0;
    while i < names.len()
        invariant
            i <= names.len(),
            views == names@.map_values(|s: String| s@),
            forall|j: int| 0 <= j < i ==> views[j] != name@,
        decreases names.len() - i,
    {
        if names[i] == *name {
            assert(views[i as int] == name@);
            return true;
        }
        i = i + 1;
    }
    false
}

/// The label of a leftover reference named `name`.
fn leftover_label_exec(provider: Option<&ProviderEntry>, name: &String) -> (r: String)
    ensures
        r@ == leftover_label(
            match provider {
                Some(p) => Some(*p),
                None => None,
            },
            name@,
        ),
{
    match provider {
        Some(p) => match find_input_named(&p.inputs, name) {
            Some(input) => asset_lab_input_label(input),
            None => name_label_exec(name.as_str()),
        },
        None => name_label_exec(name.as_str()),
    }
}

/// The media references of step `node` to versions of `asset`, in port
/// order: first the provider's inputs (in input order) bound to a suitable
/// version of the asset, then the step's other bindings to versions of the
/// asset, by name.
pub fn asset_lab_ordered_media_ref_inputs(
    asset: &Asset,
    node: &AssetLabNode,
    provider: Option<&ProviderEntry>,
) -> (r: Vec<AssetLabMediaRefInput>)
    ensures
        r@.map_values(|m: AssetLabMediaRefInput| media_ref_view(m)) == ordered_media_refs(
            *asset,
            *node,
            match provider {
                Some(p) => Some(*p),
                None => None,
            },
        ),
{
    let ghost prov = match provider {
        Some(p) => Some(*p),
        None => None,
    };
    let ghost bindings = node.inputs@;
    let mut refs: Vec<AssetLabMediaRefInput> = Vec::new();
    let mut used: Vec<String> = Vec::new();
    let ghost inputs: Seq<ProviderInputField> = match provider {
        Some(p) => p.inputs@,
        None => Seq::empty(),
    };
    if let Some(p) = provider {
        let n = p.inputs.len();
        for i in 0..n
            invariant
                n == p.inputs@.len(),
                inputs == p.inputs@,
                bindings == node.inputs@,
                refs@.map_values(|m: AssetLabMediaRefInput| media_ref_view(m)) == provider_refs(
                    *asset,
                    bindings,
                    inputs.take(i as int),
                ),
                used@.map_values(|s: String| s@) == used_names(*asset, bindings, inputs.take(i as int)),
        {
            let input = &p.inputs[i];
            let ghost before_refs = refs@.map_values(|m: AssetLabMediaRefInput| media_ref_view(m));
            let ghost before_used = used@.map_values(|s: String| s@);
            proof {
                assert(inputs.take(i + 1).drop_last() =~= inputs.take(i as int));
                assert(inputs.take(i + 1).last() == inputs[i as int]);
            }
            let mut taken = false;
            match find_binding(&node.inputs, &input.name) {
                Some(InputValue::GenerationRef { asset_id, version, frame_reference }) => {
                    if *asset_id == asset.id && asset_lab_input_is_media_link(asset, input)
                        && reference_fits_exec(&input.input_type, frame_reference) {
                        refs.push(
                            AssetLabMediaRefInput {
                                label: asset_lab_input_label(input),
                                version: version.clone(),
                            },
                        );
                        used.push(input.name.clone());
                        taken = true;
                    }
                },
                _ => {},
            }
            proof {
                if taken {
                    assert(refs@.map_values(|m: AssetLabMediaRefInput| media_ref_view(m))
                        =~= before_refs.push(provider_ref(*asset, bindings, inputs[i as int]).unwrap()));
                    assert(used@.map_values(|s: String| s@) =~= before_used.push(inputs[i as int].name@));
                } else {
                    assert(refs@.map_values(|m: AssetLabMediaRefInput| media_ref_view(m))
                        =~= before_refs);
                    assert(used@.map_values(|s: String| s@) =~= before_used);
                }
            }
        }
        assert(inputs.take(n as int) =~= inputs);
    }
    let ghost first = refs@.map_values(|m: AssetLabMediaRefInput| media_ref_view(m));
    let ghost used_v = used@.map_values(|s: String| s@);
    let ghost after = |a: (Seq<char>, Seq<char>), b: (Seq<char>, Seq<char>)| name_after(a, b);
    let ghost candidates = leftover_refs(*asset, bindings, used_v);
    // The leftover bindings, kept in name order as they are found.
    let mut sorted: Vec<(String, String)> = Vec::new();
    let m = node.inputs.len();
    for i in 0..m
        invariant
            m == node.inputs@.len(),
            bindings == node.inputs@,
            used_v == used@.map_values(|s: String| s@),
            candidates == leftover_refs(*asset, bindings, used_v),
            after == (|a: (Seq<char>, Seq<char>), b: (Seq<char>, Seq<char>)| name_after(a, b)),
            sorted@.map_values(|e: (String, String)| (e.0@, e.1@)) == sort_by(
                leftover_refs(*asset, bindings.take(i as int), used_v),
                after,
            ),
    {
        let ghost before = sorted@.map_values(|e: (String, String)| (e.0@, e.1@));
        let ghost lo = leftover_refs(*asset, bindings.take(i as int), used_v);
        proof {
            assert(bindings.take(i + 1).drop_last() =~= bindings.take(i as int));
            assert(bindings.take(i + 1).last() == bindings[i as int]);
        }
        let name = &node.inputs[i].0;
        match &node.inputs[i].1 {
            InputValue::GenerationRef { asset_id, version, .. } => {
                if *asset_id == asset.id && !holds_name(&used, name) {
                    let name_chars = chars_of(name.as_str());
                    let ghost x = (name@, version@);
                    let mut j: usize = sorted.len();
                    while j > 0
                        invariant
                            j <= sorted@.len(),
                            name_chars@ == name@,
                            x == (name@, version@),
                            after == (|a: (Seq<char>, Seq<char>), b: (Seq<char>, Seq<char>)| name_after(a, b)),
                            before == sorted@.map_values(|e: (String, String)| (e.0@, e.1@)),
                            forall|k: int| j <= k < sorted@.len() ==> after(#[trigger] before[k], x),
                        ensures
                            j <= sorted@.len(),
                            j == 0 || !after(before[j - 1], x),
                            forall|k: int| j <= k < sorted@.len() ==> after(#[trigger] before[k], x),
                        decreases j,
                    {
                        let prev = chars_of(sorted[j - 1].0.as_str());
                        let c = lex_sign_exec(&prev, &name_chars);
                        assert(before[j - 1] == (sorted@[j - 1].0@, sorted@[j - 1].1@));
                        if c > 0 {
                            j = j - 1;
                        } else {
                            break;
                        }
                    }
                    proof {
                        lemma_insert_by_at(before, x, after, j as int);
                        assert(leftover_refs(*asset, bindings.take(i + 1), used_v) == lo.push(x));
                        lemma_sort_by_step(lo.push(x), lo.len() as int, after);
                        assert(lo.push(x).take(lo.len() as int) =~= lo);
                        assert(lo.push(x).take(lo.len() + 1int) =~= lo.push(x));
                    }
                    sorted.insert(j, (name.clone(), version.clone()));
                    assert(sorted@.map_values(|e: (String, String)| (e.0@, e.1@)) =~= before.insert(
                        j as int,
                        x,
                    ));
                }
            },
            _ => {},
        }
    }
    assert(bindings.take(m as int) =~= bindings);
    let ghost arranged = sort_by(candidates, after);
    let k = sorted.len();
    for t in 0..k
        invariant
            k == sorted@.len(),
            prov == match provider {
                Some(p) => Some(*p),
                None => None,
            },
            arranged == sorted@.map_values(|e: (String, String)| (e.0@, e.1@)),
            refs@.map_values(|m: AssetLabMediaRefInput| media_ref_view(m)) == first
                + arranged.take(t as int).map_values(
                |e: (Seq<char>, Seq<char>)| (leftover_label(prov, e.0), e.1),
            ),
    {
        let ghost before = refs@.map_values(|m: AssetLabMediaRefInput| media_ref_view(m));
        let label = leftover_label_exec(provider, &sorted[t].0);
        let version = sorted[t].1.clone();
        assert(arranged[t as int] == (sorted@[t as int].0@, sorted@[t as int].1@));
        assert(version@ == sorted@[t as int].1@);
        refs.push(AssetLabMediaRefInput { label, version });
        proof {
            let g = |e: (Seq<char>, Seq<char>)| (leftover_label(prov, e.0), e.1);
            assert(arranged.take(t + 1).map_values(g) =~= arranged.take(t as int).map_values(g).push(
                g(arranged[t as int]),
            ));
            assert(refs@.map_values(|m: AssetLabMediaRefInput| media_ref_view(m)) =~= before.push(
                g(arranged[t as int]),
            ));
        }
    }
    assert(arranged.take(k as int) =~= arranged);
    proof {
        let (fs, us) = match prov {
            Some(p) => (provider_refs(*asset, bindings, p.inputs@), used_names(*asset, bindings, p.inputs@)),
            None => (Seq::<(Seq<char>, Seq<char>)>::empty(), Seq::<Seq<char>>::empty()),
        };
        assert(first == fs);
        assert(used_v == us);
        let want = ordered_media_refs(*asset, *node, prov);
        assert(want =~= first + arranged.map_values(
            |e: (Seq<char>, Seq<char>)| (leftover_label(prov, e.0), e.1),
        ));
    }
    refs
}

/// The node of the last record of `version` that names a node.
pub open spec fn recorded_source(versions: Seq<GenerationRecord>, version: Seq<char>) -> Option<u128>
    decreases versions.len(),
{
    if versions.len() == 0 {
        None
    } else if versions.last().version@ == version && versions.last().lab_node_id is Some {
        versions.last().lab_node_id
    } else {
        recorded_source(versions.drop_last(), version)
    }
}

/// The first node whose output is `version`.
pub open spec fn output_source(nodes: Seq<AssetLabNode>, version: Seq<char>) -> Option<u128>
    decreases nodes.len(),
{
    if nodes.len() == 0 {
        None
    } else {
        match output_source(nodes.drop_last(), version) {
            Some(id) => Some(id),
            None => match nodes.last().output_version {
                Some(v) => if v@ == version {
                    Some(nodes.last().id)
                } else {
                    None
                },
                None => None,
            },
        }
    }
}

/// The step that produced `version`: the node named by the last record of
/// that version that names one, else the first node with that output.
pub open spec fn version_source(
    nodes: Seq<AssetLabNode>,
    versions: Seq<GenerationRecord>,
    version: Seq<char>,
) -> Option<u128> {
    match recorded_source(versions, version) {
        Some(id) => Some(id),
        None => output_source(nodes, version),
    }
}

/// The node paired with `version` in a list of (version, node) pairs.
pub open spec fn source_lookup(m: Seq<(String, u128)>, version: Seq<char>) -> Option<u128>
    decreases m.len(),
{
    if m.len() == 0 {
        None
    } else if m.last().0@ == version {
        Some(m.last().1)
    } else {
        source_lookup(m.drop_last(), version)
    }
}

/// Whether no version occurs twice among the pairs.
pub open spec fn distinct_keys(m: Seq<(String, u128)>) -> bool {
    forall|i: int, j: int| 0 <= i < j < m.len() ==> m[i].0@ != m[j].0@
}

proof fn lemma_lookup_absent(m: Seq<(String, u128)>, version: Seq<char>)
    requires
        forall|i: int| 0 <= i < m.len() ==> #[trigger] m[i].0@ != version,
    ensures
        source_lookup(m, version) is None,
    decreases m.len(),
{
    if m.len() > 0 {
        assert(m[m.len() - 1].0@ != version);
        lemma_lookup_absent(m.drop_last(), version);
    }
}

proof fn lemma_lookup_at(m: Seq<(String, u128)>, i: int)
    requires
        distinct_keys(m),
        0 <= i < m.len(),
    ensures
        source_lookup(m, m[i].0@) == Some(m[i].1),
    decreases m.len(),
{
    if i < m.len() - 1 {
        assert(m[i].0@ != m[m.len() - 1].0@);
        assert(m.drop_last()[i] == m[i]);
        lemma_lookup_at(m.drop_last(), i);
    }
}

proof fn lemma_lookup_update(m: Seq<(String, u128)>, i: int, e: (String, u128), version: Seq<char>)
    requires
        distinct_keys(m),
        0 <= i < m.len(),
        e.0@ == m[i].0@,
    ensures
        distinct_keys(m.update(i, e)),
        source_lookup(m.update(i, e), version) == if version == e.0@ {
            Some(e.1)
        } else {
            source_lookup(m, version)
        },
    decreases m.len(),
{
    let u = m.update(i, e);
    assert forall|a: int, b: int| 0 <= a < b < u.len() implies u[a].0@ != u[b].0@ by {
        assert(m[a].0@ != m[b].0@);
    }
    if i == m.len() - 1 {
        assert(u.drop_last() =~= m.drop_last());
        if version != e.0@ {
        } else {
        }
    } else {
        assert(u.drop_last() =~= m.drop_last().update(i, e));
        assert(m.drop_last()[i] == m[i]);
        assert(distinct_keys(m.drop_last()));
        lemma_lookup_update(m.drop_last(), i, e, version);
        assert(m[i].0@ != m[m.len() - 1].0@);
    }
}

/// The position of the pair for `version`.
fn key_position(m: &Vec<(String, u128)>, version: &String) -> (r: Option<usize>)
    ensures
        match r {
            Some(i) => i < m@.len() && m@[i as int].0@ == version@,
            None => forall|i: int| 0 <= i < m@.len() ==> #[trigger] m@[i].0@ != version@,
        },
{
    let mut i: usize = 0;
    while i < m.len()
        invariant
            i <= m.len(),
            forall|j: int| 0 <= j < i ==> #[trigger] m@[j].0@ != version@,
        decreases m.len() - i,
    {
        if m[i].0 == *version {
            return Some(i);
        }
        i = i + 1;
    }
    None
}

/// The node paired with `version`.
fn lookup_source(m: &Vec<(String, u128)>, version: &String) -> (r: Option<u128>)
    requires
        distinct_keys(m@),
    ensures
        r == source_lookup(m@, version@),
{
    match key_position(m, version) {
        Some(i) => {
            proof {
                lemma_lookup_at(m@, i as int);
            }
            Some(m[i].1)
        },
        None => {
            proof {
                lemma_lookup_absent(m@, version@);
            }
            None
        },
    }
}

/// Which step produced each version, as (version, node) pairs with no
/// version twice: a record that names a node wins (the last such record of a
/// version), else the first node with that output.
pub fn asset_lab_version_source_nodes(
    nodes: &Vec<AssetLabNode>,
    versions: &Vec<GenerationRecord>,
) -> (r: Vec<(String, u128)>)
    ensures
        distinct_keys(r@),
        forall|v: Seq<char>| #[trigger] source_lookup(r@, v) == version_source(nodes@, versions@, v),
{
    let mut sources: Vec<(String, u128)> = Vec::new();
    let n = versions.len();
    for i in 0..n
        invariant
            n == versions@.len(),
            distinct_keys(sources@),
            forall|v: Seq<char>| #[trigger]
                source_lookup(sources@, v) == recorded_source(versions@.take(i as int), v),
    {
        let ghost before = sources@;
        proof {
            assert(versions@.take(i + 1).drop_last() =~= versions@.take(i as int));
            assert(versions@.take(i + 1).last() == versions@[i as int]);
        }
        if let Some(node_id) = versions[i].lab_node_id {
            let key = &versions[i].version;
            match key_position(&sources, key) {
                Some(k) => {
                    let e = (key.clone(), node_id);
                    proof {
                        assert forall|v: Seq<char>| #[trigger]
                            source_lookup(before.update(k as int, e), v) == recorded_source(
                                versions@.take(i + 1),
                                v,
                            ) by {
                            lemma_lookup_update(before, k as int, e, v);
                        }
                        lemma_lookup_update(before, k as int, e, key@);
                    }
                    sources.set(k, e);
                },
                None => {
                    sources.push((key.clone(), node_id));
                    proof {
                        assert forall|a: int, b: int|
                            0 <= a < b < sources@.len() implies sources@[a].0@ != sources@[b].0@ by {
                            if b == sources@.len() - 1 {
                                assert(before[a].0@ != key@);
                            } else {
                                assert(before[a].0@ != before[b].0@);
                            }
                        }
                        assert forall|v: Seq<char>| #[trigger]
                            source_lookup(sources@, v) == recorded_source(versions@.take(i + 1), v) by {
                            assert(sources@.drop_last() =~= before);
                            assert(source_lookup(before, v) == recorded_source(versions@.take(i as int), v));
                            assert(versions@.take(i + 1).drop_last() =~= versions@.take(i as int));
                            assert(versions@.take(i + 1).last() == versions@[i as int]);
                        }
                    }
                },
            }
        }
    }
    assert(versions@.take(n as int) =~= versions@);
    let m = nodes.len();
    for j in 0..m
        invariant
            m == nodes@.len(),
            distinct_keys(sources@),
            forall|v: Seq<char>| #[trigger]
                source_lookup(sources@, v) == match recorded_source(versions@, v) {
                    Some(id) => Some(id),
                    None => output_source(nodes@.take(j as int), v),
                },
    {
        let ghost before = sources@;
        proof {
            assert(nodes@.take(j + 1).drop_last() =~= nodes@.take(j as int));
            assert(nodes@.take(j + 1).last() == nodes@[j as int]);
        }
        match &nodes[j].output_version {
            Some(version) => {
                if key_position(&sources, version).is_none() {
                    proof {
                        lemma_lookup_absent(before, version@);
                    }
                    sources.push((version.clone(), nodes[j].id));
                    proof {
                        assert forall|a: int, b: int|
                            0 <= a < b < sources@.len() implies sources@[a].0@ != sources@[b].0@ by {
                            if b == sources@.len() - 1 {
                                assert(before[a].0@ != version@);
                            } else {
                                assert(before[a].0@ != before[b].0@);
                            }
                        }
                        assert forall|v: Seq<char>| #[trigger]
                            source_lookup(sources@, v) == match recorded_source(versions@, v) {
                                Some(id) => Some(id),
                                None => output_source(nodes@.take(j + 1), v),
                            } by {
                            assert(sources@.drop_last() =~= before);
                            assert(source_lookup(before, v) == match recorded_source(versions@, v) {
                                Some(id) => Some(id),
                                None => output_source(nodes@.take(j as int), v),
                            });
                        }
                    }
                } else {
                    proof {
                        assert forall|v: Seq<char>| #[trigger]
                            source_lookup(sources@, v) == match recorded_source(versions@, v) {
                                Some(id) => Some(id),
                                None => output_source(nodes@.take(j + 1), v),
                            } by {
                            assert(source_lookup(before, v) == match recorded_source(versions@, v) {
                                Some(id) => Some(id),
                                None => output_source(nodes@.take(j as int), v),
                            });
                            if v == version@ {
                                let k = choose|k: int| 0 <= k < before.len() && before[k].0@ == version@;
                                lemma_lookup_at(before, k);
                            }
                        }
                    }
                }
            },
            None => {},
        }
    }
    assert(nodes@.take(m as int) =~= nodes@);
    sources
}

/// A link as values: source node, target node, label, port and port count.
pub open spec fn link_view(l: AssetLabMediaRefLink) -> (u128, u128, Seq<char>, int, int) {
    (l.source_node_id, l.target_node_id, l.label@, l.port_index as int, l.port_count as int)
}

/// The provider a step uses, when it names one that exists.
pub open spec fn node_provider(providers: Seq<ProviderEntry>, node: AssetLabNode) -> Option<
    ProviderEntry,
> {
    match node.provider_id {
        Some(id) => provider_with(providers, id),
        None => None,
    }
}

/// The links into step `node` from its first `k` references: one for each
/// reference whose version has a producing step other than the node's own
/// parent.
pub open spec fn ref_links(
    nodes: Seq<AssetLabNode>,
    versions: Seq<GenerationRecord>,
    node: AssetLabNode,
    refs: Seq<(Seq<char>, Seq<char>)>,
    k: int,
) -> Seq<(u128, u128, Seq<char>, int, int)>
    decreases k,
{
    if k <= 0 {
        Seq::empty()
    } else {
        let rest = ref_links(nodes, versions, node, refs, k - 1);
        let r = refs[k - 1];
        match version_source(nodes, versions, r.1) {
            Some(src) => if node.parent_node_id == Some(src) {
                rest
            } else {
                rest.push((src, node.id, r.0, k - 1, refs.len() as int))
            },
            None => rest,
        }
    }
}

/// The links into each step of `upto`, step by step.
pub open spec fn media_links(
    asset: Asset,
    nodes: Seq<AssetLabNode>,
    versions: Seq<GenerationRecord>,
    providers: Seq<ProviderEntry>,
    upto: Seq<AssetLabNode>,
) -> Seq<(u128, u128, Seq<char>, int, int)>
    decreases upto.len(),
{
    if upto.len() == 0 {
        Seq::empty()
    } else {
        let node = upto.last();
        let refs = ordered_media_refs(asset, node, node_provider(providers, node));
        media_links(asset, nodes, versions, providers, upto.drop_last()) + ref_links(
            nodes,
            versions,
            node,
            refs,
            refs.len() as int,
        )
    }
}

/// The links drawn on the lab graph: for each step, in order, each media
/// reference (in port order) whose version was produced by a step other
/// than the step's own parent.
pub fn asset_lab_media_ref_links(
    asset: &Asset,
    nodes: &Vec<AssetLabNode>,
    versions: &Vec<GenerationRecord>,
    providers: &Vec<ProviderEntry>,
) -> (r: Vec<AssetLabMediaRefLink>)
    ensures
        r@.map_values(|l: AssetLabMediaRefLink| link_view(l)) == media_links(
            *asset,
            nodes@,
            versions@,
            providers@,
            nodes@,
        ),
{
    let sources = asset_lab_version_source_nodes(nodes, versions);
    let mut links: Vec<AssetLabMediaRefLink> = Vec::new();
    let n = nodes.len();
    for i in 0..n
        invariant
            n == nodes@.len(),
            distinct_keys(sources@),
            forall|v: Seq<char>| #[trigger] source_lookup(sources@, v) == version_source(nodes@, versions@, v),
            links@.map_values(|l: AssetLabMediaRefLink| link_view(l)) == media_links(
                *asset,
                nodes@,
                versions@,
                providers@,
                nodes@.take(i as int),
            ),
    {
        let node = &nodes[i];
        let provider = asset_lab_node_provider(providers, node);
        let refs = asset_lab_ordered_media_ref_inputs(asset, node, provider);
        let ghost rv = ordered_media_refs(*asset, *node, node_provider(providers@, *node));
        let ghost before = links@.map_values(|l: AssetLabMediaRefLink| link_view(l));
        proof {
            assert(nodes@.take(i + 1).drop_last() =~= nodes@.take(i as int));
            assert(nodes@.take(i + 1).last() == nodes@[i as int]);
            assert(refs@.map_values(|m: AssetLabMediaRefInput| media_ref_view(m)) == rv);
        }
        let port_count = refs.len();
        for port_index in 0..port_count
            invariant
                port_count == refs@.len(),
                rv == refs@.map_values(|m: AssetLabMediaRefInput| media_ref_view(m)),
                distinct_keys(sources@),
                forall|v: Seq<char>| #[trigger] source_lookup(sources@, v) == version_source(
                    nodes@,
                    versions@,
                    v,
                ),
                links@.map_values(|l: AssetLabMediaRefLink| link_view(l)) == before + ref_links(
                    nodes@,
                    versions@,
                    *node,
                    rv,
                    port_index as int,
                ),
        {
            let ghost mid = links@.map_values(|l: AssetLabMediaRefLink| link_view(l));
            let media_ref = &refs[port_index];
            assert(rv[port_index as int] == (media_ref.label@, media_ref.version@));
            match lookup_source(&sources, &media_ref.version) {
                Some(source_node_id) => {
                    if node.parent_node_id != Some(source_node_id) {
                        let label = media_ref.label.clone();
                        links.push(
                            AssetLabMediaRefLink {
                                source_node_id,
                                target_node_id: node.id,
                                label,
                                port_index,
                                port_count,
                            },
                        );
                        assert(links@.map_values(|l: AssetLabMediaRefLink| link_view(l)) =~= mid.push(
                            (source_node_id, node.id, media_ref.label@, port_index as int, port_count as int),
                        ));
                    }
                },
                None => {},
            }
        }
    }
    assert(nodes@.take(n as int) =~= nodes@);
    links
}

/// The JSON text of the literal bound to input `name` of a configuration;
/// nothing when the input is unbound or bound to a media reference.
pub fn literal_config_input(config: &GenerativeConfig, name: &str) -> (r: Option<String>)
    ensures
        match binding_named(config.inputs@, name@) {
            Some(InputValue::Literal { json }) => r matches Some(t) && t@ == json@,
            _ => r is None,
        },
{
    let key = String::from_str(name);
    match find_binding(&config.inputs, &key) {
        Some(InputValue::Literal { json }) => Some(json.clone()),
        _ => None,
    }
}

} // verus!
