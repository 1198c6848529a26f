//! The description of a loaded model and the per-layer quantisation plan.
use std::collections::HashMap;
use vstd::prelude::*;

verus! {

broadcast use vstd::std_specs::hash::group_hash_axioms;

/// Generation of the RWKV architecture a model file holds.
#[derive(Debug, Clone, Copy, PartialEq, Eq, Structural)]
pub enum ModelVersion {
    V4,
    V5,
    V6,
    V7,
}

/// The shape of a loaded model, as plain values.
#[derive(Debug, Clone, Copy, PartialEq, Eq, Structural)]
pub struct ModelInfo {
    pub version: ModelVersion,
    pub num_layer: usize,
    pub num_emb: usize,
    pub num_hidden: usize,
    pub num_vocab: usize,
    pub num_head: usize,
}

/// Quantisation applied to the weights of one layer.
#[derive(Debug, Clone, Copy, PartialEq, Eq, Structural)]
pub enum Quant {
    /// No quantisation.
    Unquantized,
    /// 8-bit integer quantisation.
    Int8,
    /// 4-bit normal-float quantisation.
    NF4,
}

/// The quantisation that layer `layer` receives when the first `quant` layers
/// are asked for `Int8` and the first `quant_nf4` layers for `NF4`: the `NF4`
/// request wins where both cover a layer, and layers that neither covers are
/// absent from the plan.
pub open spec fn planned_quant(quant: nat, quant_nf4: nat, layer: nat) -> Option<Quant> {
    if layer < quant_nf4 {
        Some(Quant::NF4)
    } else if layer < quant {
        Some(Quant::Int8)
    } else {
        None
    }
}

/// The plan as a map from layer index to quantisation.
pub open spec fn quant_plan(quant: nat, quant_nf4: nat) -> Map<usize, Quant> {
    Map::new(
        |layer: usize| planned_quant(quant, quant_nf4, layer as nat) is Some,
        |layer: usize| planned_quant(quant, quant_nf4, layer as nat)->0,
    )
}

/// Builds the per-layer quantisation map handed to the model builder: layers
/// `0..quant` are marked `Int8`, then layers `0..quant_nf4` are marked `NF4`,
/// a later mark replacing an earlier one for the same layer.
pub fn quant_layers(quant: usize, quant_nf4: usize) -> (plan: HashMap<usize, Quant>)
    ensures
        plan@ == quant_plan(quant as nat, quant_nf4 as nat),
{
    let mut plan: HashMap<usize, Quant> = HashMap::new();
    let mut layer: usize = 0;
    while layer < quant
        invariant
            layer <= quant,
            plan@ == Map::new(|l: usize| l < layer, |l: usize| Quant::Int8),
        decreases quant - layer,
    {
        plan.insert(layer, Quant::Int8);
        layer = layer + 1;
        assert(plan@ =~= Map::new(|l: usize| l < layer, |l: usize| Quant::Int8));
    }
    let mut layer: usize = 0;
    while layer < quant_nf4
        invariant
            layer <= quant_nf4,
            plan@ == Map::new(
                |l: usize| l < layer || l < quant,
                |l: usize| if l < layer { Quant::NF4 } else { Quant::Int8 },
            ),
        decreases quant_nf4 - layer,
    {
        plan.insert(layer, Quant::NF4);
        layer = layer + 1;
        assert(plan@ =~= Map::new(
            |l: usize| l < layer || l < quant,
            |l: usize| if l < layer { Quant::NF4 } else { Quant::Int8 },
        ));
    }
    assert(plan@ =~= quant_plan(quant as nat, quant_nf4 as nat));
    plan
}

/// The `NF4` request takes precedence: every layer below `quant_nf4` is
/// planned as `NF4` whatever `quant` asks for, and a layer is quantised at
/// all exactly when one of the two requests covers it.
pub proof fn law_nf4_takes_precedence(quant: nat, quant_nf4: nat, layer: usize)
    ensures
        (layer as nat) < quant_nf4 ==> quant_plan(quant, quant_nf4).contains_key(layer)
            && quant_plan(quant, quant_nf4)[layer] == Quant::NF4,
        quant_plan(quant, quant_nf4).contains_key(layer) <==> ((layer as nat) < quant
            || (layer as nat) < quant_nf4),
        quant_nf4 <= (layer as nat) < quant ==> quant_plan(quant, quant_nf4)[layer] == Quant::Int8,
{
}

} // verus!
