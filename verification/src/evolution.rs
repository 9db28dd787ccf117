use crate::brain::{
    lemma_mutation_keeps_shape, lemma_no_chance_no_change, lemma_same_shape_equivalence, Layer,
    LayerView, NeuralNetwork, NeuralNetworkView, DRAW_RESOLUTION,
};
use crate::fraction::Fraction;
use crate::genetic::{GeneticModel, GeneticModelView};
use crate::model::ModelView;
use crate::selection::{average_of, is_best, is_selection};
use rand::rngs::StdRng;
use vstd::prelude::*;

verus! {

/// The values that the brains at the places `chosen` hold for the weight
/// `[k][j]` of layer `l`, in the order of `chosen`.
pub open spec fn weight_column<T>(
    brains: Seq<NeuralNetworkView<T>>,
    chosen: Seq<usize>,
    l: int,
    k: int,
    j: int,
) -> Seq<T> {
    Seq::new(chosen.len(), |a: int| brains[chosen[a] as int].layers[l].weights[k][j])
}

/// The values that the brains at the places `chosen` hold for bias `j` of
/// layer `l`, in the order of `chosen`.
pub open spec fn bias_column<T>(
    brains: Seq<NeuralNetworkView<T>>,
    chosen: Seq<usize>,
    l: int,
    j: int,
) -> Seq<T> {
    Seq::new(chosen.len(), |a: int| brains[chosen[a] as int].layers[l].biases[j])
}

/// `value` is what `average` makes of the values `column`.
pub open spec fn is_average<T, A: Fn(&Vec<T>) -> T>(column: Seq<T>, value: T, average: A) -> bool {
    exists|v: Vec<T>| v@ == column && #[trigger] call_ensures(average, (&v,), value)
}

/// The places `chosen` are places of `brains`, there is one at least, and
/// the brains there all have one shape.
pub open spec fn mergeable<T>(brains: Seq<NeuralNetworkView<T>>, chosen: Seq<usize>) -> bool {
    &&& chosen.len() > 0
    &&& forall|a: int| 0 <= a < chosen.len() ==> (#[trigger] chosen[a]) < brains.len()
    &&& forall|a: int|
        0 <= a < chosen.len() ==> brains[chosen[0] as int].same_shape(
            brains[(#[trigger] chosen[a]) as int],
        )
}

/// `layer` is layer `l` of the merged brain: it has the shape of that layer
/// in the chosen brains, and each of its weights and biases is the average
/// of the chosen brains' values in that place.
pub open spec fn is_merged_layer<T, A: Fn(&Vec<T>) -> T>(
    brains: Seq<NeuralNetworkView<T>>,
    chosen: Seq<usize>,
    l: int,
    layer: LayerView<T>,
    average: A,
) -> bool {
    &&& brains[chosen[0] as int].layers[l].same_shape(layer)
    &&& forall|k: int, j: int|
        0 <= k < layer.weights.len() && 0 <= j < layer.weights[k].len() ==> is_average(
            weight_column(brains, chosen, l, k, j),
            #[trigger] layer.weights[k][j],
            average,
        )
    &&& forall|j: int|
        0 <= j < layer.biases.len() ==> is_average(
            bias_column(brains, chosen, l, j),
            #[trigger] layer.biases[j],
            average,
        )
}

/// `champion` is the merged brain of the brains at the places `chosen`.
pub open spec fn is_merge<T, A: Fn(&Vec<T>) -> T>(
    brains: Seq<NeuralNetworkView<T>>,
    chosen: Seq<usize>,
    champion: NeuralNetworkView<T>,
    average: A,
) -> bool {
    &&& champion.layers.len() == brains[chosen[0] as int].layers.len()
    &&& forall|l: int|
        0 <= l < champion.layers.len() ==> is_merged_layer(
            brains,
            chosen,
            l,
            #[trigger] champion.layers[l],
            average,
        )
}

impl<T> GeneticModelView<NeuralNetwork<T>> {
    /// The controllers' brains, in the order of the population.
    pub open spec fn brains(self) -> Seq<NeuralNetworkView<T>> {
        self.population.map_values(|m: ModelView<NeuralNetwork<T>>| m.brain@)
    }

    /// All the brains have one shape.
    pub open spec fn uniform(self) -> bool {
        forall|i: int, j: int|
            0 <= i < self.population.len() && 0 <= j < self.population.len() ==> (
            #[trigger] self.brains()[i]).same_shape(#[trigger] self.brains()[j])
    }

    /// `after` is this population one evolution later, where `chosen` were
    /// the eligible and `champion` their merged brain: every controller has
    /// a mutation of the one champion for its brain and is otherwise as it
    /// was.
    pub open spec fn evolves_to<A: Fn(&Vec<T>) -> T, F: Fn(u64) -> T>(
        self,
        after: GeneticModelView<NeuralNetwork<T>>,
        chosen: Seq<usize>,
        champion: NeuralNetworkView<T>,
        chance: Fraction,
        average: A,
        from_draw: F,
    ) -> bool {
        &&& is_merge(self.brains(), chosen, champion, average)
        &&& after.population.len() == self.population.len()
        &&& forall|i: int|
            0 <= i < self.population.len() ==> {
                let m = #[trigger] after.population[i];
                &&& champion.mutates_to(m.brain@, chance, from_draw)
                &&& m == self.population[i].with_brain(m.brain)
            }
    }
}

/// A population whose controllers have kept their brains has kept the one
/// shape of its brains: ticks and resets leave it fit for merging.
pub proof fn lemma_same_brains_stay_uniform<T>(
    before: GeneticModelView<NeuralNetwork<T>>,
    after: GeneticModelView<NeuralNetwork<T>>,
)
    requires
        before.uniform(),
        after.population.len() == before.population.len(),
        forall|i: int|
            0 <= i < before.population.len() ==> before.population[i].same_frame(
                #[trigger] after.population[i],
            ),
    ensures
        after.uniform(),
{
    assert forall|i: int, j: int|
        0 <= i < after.population.len() && 0 <= j < after.population.len() implies (
    #[trigger] after.brains()[i]).same_shape(#[trigger] after.brains()[j]) by {
        assert(before.population[i].same_frame(after.population[i]));
        assert(before.population[j].same_frame(after.population[j]));
        assert(before.brains()[i].same_shape(before.brains()[j]));
    }
}

/// Where nothing mutates, an evolution leaves every controller with one and
/// the same brain: the merged brain of the eligible.
pub proof fn lemma_evolution_hands_out_one_brain<T, A: Fn(&Vec<T>) -> T, F: Fn(u64) -> T>(
    before: GeneticModelView<NeuralNetwork<T>>,
    after: GeneticModelView<NeuralNetwork<T>>,
    chosen: Seq<usize>,
    champion: NeuralNetworkView<T>,
    chance: Fraction,
    average: A,
    from_draw: F,
)
    requires
        before.evolves_to(after, chosen, champion, chance, average, from_draw),
        chance.numerator == 0,
    ensures
        forall|i: int|
            0 <= i < after.population.len() ==> (#[trigger] after.brains()[i]) == champion,
{
    assert forall|i: int| 0 <= i < after.population.len() implies (#[trigger] after.brains()[i])
        == champion by {
        let m = after.population[i];
        assert(champion.mutates_to(m.brain@, chance, from_draw));
        lemma_no_chance_no_change(champion, m.brain@, chance, from_draw);
    }
}

impl<T: Copy> GeneticModel<NeuralNetwork<T>> {
    /// The values that the chosen brains hold for one weight.
    fn gather_weight(&self, to_keep: &Vec<usize>, l: usize, k: usize, j: usize) -> (column: Vec<T>)
        requires
            mergeable(self@.brains(), to_keep@),
            l < self@.brains()[to_keep@[0] as int].layers.len(),
            k < self@.brains()[to_keep@[0] as int].layers[l as int].weights.len(),
            j < self@.brains()[to_keep@[0] as int].layers[l as int].weights[k as int].len(),
        ensures
            column@ == weight_column(self@.brains(), to_keep@, l as int, k as int, j as int),
    {
        let ghost brains = self@.brains();
        let ghost first = brains[to_keep@[0] as int];
        let mut column: Vec<T> = Vec::new();
        let mut a: usize = 0;
        while a < to_keep.len()
            invariant
                a <= to_keep@.len(),
                brains == self@.brains(),
                first == brains[to_keep@[0] as int],
                mergeable(brains, to_keep@),
                l < first.layers.len(),
                k < first.layers[l as int].weights.len(),
                j < first.layers[l as int].weights[k as int].len(),
                column@.len() == a,
                forall|b: int|
                    0 <= b < a ==> column@[b] == brains[to_keep@[b] as int].layers[l as int].weights[k as int][j as int],
            decreases to_keep.len() - a,
        {
            let i = to_keep[a];
            let brain = &self.population[i].brain;
            proof {
                assert(first.same_shape(brains[to_keep@[a as int] as int]));
                assert(brain@ == brains[i as int]);
                assert(first.layers[l as int].same_shape(brain@.layers[l as int]));
                assert(first.layers[l as int].weights[k as int].len()
                    == brain@.layers[l as int].weights[k as int].len());
                assert(brain@.layers[l as int] == brain.layers@[l as int]@);
                assert(brain.layers@[l as int]@.weights[k as int]
                    == brain.layers@[l as int].weights@[k as int]@);
            }
            column.push(brain.layers[l].weights[k][j]);
            a += 1;
        }
        assert(column@ =~= weight_column(brains, to_keep@, l as int, k as int, j as int));
        column
    }

    /// The values that the chosen brains hold for one bias.
    fn gather_bias(&self, to_keep: &Vec<usize>, l: usize, j: usize) -> (column: Vec<T>)
        requires
            mergeable(self@.brains(), to_keep@),
            l < self@.brains()[to_keep@[0] as int].layers.len(),
            j < self@.brains()[to_keep@[0] as int].layers[l as int].biases.len(),
        ensures
            column@ == bias_column(self@.brains(), to_keep@, l as int, j as int),
    {
        let ghost brains = self@.brains();
        let ghost first = brains[to_keep@[0] as int];
        let mut column: Vec<T> = Vec::new();
        let mut a: usize = 0;
        while a < to_keep.len()
            invariant
                a <= to_keep@.len(),
                brains == self@.brains(),
                first == brains[to_keep@[0] as int],
                mergeable(brains, to_keep@),
                l < first.layers.len(),
                j < first.layers[l as int].biases.len(),
                column@.len() == a,
                forall|b: int|
                    0 <= b < a ==> column@[b] == brains[to_keep@[b] as int].layers[l as int].biases[j as int],
            decreases to_keep.len() - a,
        {
            let i = to_keep[a];
            let brain = &self.population[i].brain;
            proof {
                assert(first.same_shape(brains[to_keep@[a as int] as int]));
                assert(brain@ == brains[i as int]);
                assert(first.layers[l as int].same_shape(brain@.layers[l as int]));
                assert(brain@.layers[l as int] == brain.layers@[l as int]@);
            }
            column.push(brain.layers[l].biases[j]);
            a += 1;
        }
        assert(column@ =~= bias_column(brains, to_keep@, l as int, j as int));
        column
    }

    /// Layer `l` of the merged brain.
    fn merge_layer<A: Fn(&Vec<T>) -> T>(&self, to_keep: &Vec<usize>, l: usize, average: &A) -> (layer:
        Layer<T>)
        requires
            mergeable(self@.brains(), to_keep@),
            l < self@.brains()[to_keep@[0] as int].layers.len(),
            forall|v: &Vec<T>| v@.len() > 0 ==> call_requires(*average, (v,)),
        ensures
            is_merged_layer(self@.brains(), to_keep@, l as int, layer@, *average),
    {
        let ghost brains = self@.brains();
        let ghost first = brains[to_keep@[0] as int];
        let template = &self.population[to_keep[0]].brain.layers[l];
        proof {
            assert(self.population@[to_keep@[0] as int]@.brain@ == first);
            assert(template@ == first.layers[l as int]);
        }
        let mut weights: Vec<Vec<T>> = Vec::new();
        let rows = template.weights.len();
        let mut k: usize = 0;
        while k < rows
            invariant
                k <= rows,
                brains == self@.brains(),
                first == brains[to_keep@[0] as int],
                mergeable(brains, to_keep@),
                l < first.layers.len(),
                template@ == first.layers[l as int],
                rows == template.weights@.len(),
                forall|v: &Vec<T>| v@.len() > 0 ==> call_requires(*average, (v,)),
                weights@.len() == k,
                forall|a: int|
                    0 <= a < k ==> (#[trigger] weights@[a])@.len() == template@.weights[a].len(),
                forall|a: int, b: int|
                    0 <= a < k && 0 <= b < weights@[a]@.len() ==> is_average(
                        weight_column(brains, to_keep@, l as int, a, b),
                        #[trigger] weights@[a]@[b],
                        *average,
                    ),
            decreases rows - k,
        {
            let columns = template.weights[k].len();
            assert(template@.weights[k as int] == template.weights@[k as int]@);
            let mut row: Vec<T> = Vec::new();
            let mut j: usize = 0;
            while j < columns
                invariant
                    j <= columns,
                    k < rows,
                    brains == self@.brains(),
                    first == brains[to_keep@[0] as int],
                    mergeable(brains, to_keep@),
                    l < first.layers.len(),
                    template@ == first.layers[l as int],
                    rows == template.weights@.len(),
                    columns == template@.weights[k as int].len(),
                    forall|v: &Vec<T>| v@.len() > 0 ==> call_requires(*average, (v,)),
                    row@.len() == j,
                    forall|b: int|
                        0 <= b < j ==> is_average(
                            weight_column(brains, to_keep@, l as int, k as int, b),
                            #[trigger] row@[b],
                            *average,
                        ),
                decreases columns - j,
            {
                let column = self.gather_weight(to_keep, l, k, j);
                let value = average(&column);
                row.push(value);
                j += 1;
            }
            weights.push(row);
            k += 1;
        }
        let mut biases: Vec<T> = Vec::new();
        let count = template.biases.len();
        let mut j: usize = 0;
        while j < count
            invariant
                j <= count,
                brains == self@.brains(),
                first == brains[to_keep@[0] as int],
                mergeable(brains, to_keep@),
                l < first.layers.len(),
                template@ == first.layers[l as int],
                count == template@.biases.len(),
                forall|v: &Vec<T>| v@.len() > 0 ==> call_requires(*average, (v,)),
                biases@.len() == j,
                forall|b: int|
                    0 <= b < j ==> is_average(
                        bias_column(brains, to_keep@, l as int, b),
                        #[trigger] biases@[b],
                        *average,
                    ),
            decreases count - j,
        {
            let column = self.gather_bias(to_keep, l, j);
            let value = average(&column);
            biases.push(value);
            j += 1;
        }
        let layer = Layer {
            input_dim: template.input_dim,
            output_dim: template.output_dim,
            weights,
            biases,
            activation: template.activation,
        };
        proof {
            assert forall|a: int, b: int|
                0 <= a < layer@.weights.len() && 0 <= b < layer@.weights[a].len() implies is_average(
                weight_column(brains, to_keep@, l as int, a, b),
                #[trigger] layer@.weights[a][b],
                *average,
            ) by {
                assert(layer@.weights[a] == layer.weights@[a]@);
            }
            assert forall|a: int| 0 <= a < template@.weights.len() implies (
            #[trigger] template@.weights[a]).len() == layer@.weights[a].len() by {
                assert(layer@.weights[a] == layer.weights@[a]@);
            }
        }
        layer
    }

    /// Whether all the brains have one shape, as merging them asks.
    pub fn is_uniform(&self) -> (r: bool)
        ensures
            r == self@.uniform(),
    {
        let n = self.population.len();
        if n == 0 {
            return true;
        }
        let ghost brains = self@.brains();
        let mut i: usize = 1;
        while i < n
            invariant
                1 <= i <= n,
                n == self.population@.len(),
                brains == self@.brains(),
                forall|j: int| 0 <= j < i ==> brains[0].same_shape(#[trigger] brains[j]),
            decreases n - i,
        {
            assert(brains[0] == self.population@[0]@.brain@);
            assert(brains[i as int] == self.population@[i as int]@.brain@);
            if !self.population[0].brain.same_shape(&self.population[i].brain) {
                return false;
            }
            i += 1;
        }
        proof {
            lemma_same_shape_equivalence(brains[0], brains[0], brains[0]);
            assert forall|a: int, b: int| 0 <= a < n && 0 <= b < n implies (
            #[trigger] brains[a]).same_shape(#[trigger] brains[b]) by {
                lemma_same_shape_equivalence(brains[0], brains[a], brains[b]);
                lemma_same_shape_equivalence(brains[a], brains[0], brains[b]);
            }
        }
        true
    }

    /// Merges the brains at the places `to_keep` into one: a brain of their
    /// shape in which every weight and every bias is what `average` makes of
    /// the values that those brains hold in its place.
    pub fn merge_brains<A: Fn(&Vec<T>) -> T>(&self, to_keep: &Vec<usize>, average: &A) -> (brain:
        NeuralNetwork<T>)
        requires
            mergeable(self@.brains(), to_keep@),
            forall|v: &Vec<T>| v@.len() > 0 ==> call_requires(*average, (v,)),
        ensures
            is_merge(self@.brains(), to_keep@, brain@, *average),
    {
        let ghost brains = self@.brains();
        let ghost first = brains[to_keep@[0] as int];
        let depth = self.population[to_keep[0]].brain.layers.len();
        assert(self.population@[to_keep@[0] as int]@.brain@ == first);
        let mut layers: Vec<Layer<T>> = Vec::new();
        let mut l: usize = 0;
        while l < depth
            invariant
                l <= depth,
                brains == self@.brains(),
                first == brains[to_keep@[0] as int],
                mergeable(brains, to_keep@),
                depth == first.layers.len(),
                forall|v: &Vec<T>| v@.len() > 0 ==> call_requires(*average, (v,)),
                layers@.len() == l,
                forall|a: int|
                    0 <= a < l ==> is_merged_layer(
                        brains,
                        to_keep@,
                        a,
                        (#[trigger] layers@[a])@,
                        *average,
                    ),
            decreases depth - l,
        {
            let layer = self.merge_layer(to_keep, l, average);
            layers.push(layer);
            l += 1;
        }
        let brain = NeuralNetwork { layers };
        proof {
            assert forall|a: int| 0 <= a < brain@.layers.len() implies is_merged_layer(
                brains,
                to_keep@,
                a,
                #[trigger] brain@.layers[a],
                *average,
            ) by {
                assert(brain@.layers[a] == brain.layers@[a]@);
            }
        }
        brain
    }

    /// Ends a generation. The scores are read and the eligible controllers
    /// selected; their brains are merged into one champion; every controller
    /// then gets, in place of its own brain, a copy of the champion that has
    /// been mutated on its own. Returns the best score, the mean score
    /// rounded down, and how many controllers were eligible.
    ///
    /// Grids, scores and moves are left as they are: a reset of each
    /// controller starts the next generation. There must be a controller,
    /// and the brains must all have one shape, or there is nothing to merge.
    pub fn evolve<A: Fn(&Vec<T>) -> T, F: Fn(u64) -> T>(
        &mut self,
        margin: Fraction,
        chance: Fraction,
        rng: &mut StdRng,
        average: &A,
        from_draw: &F,
    ) -> (report: (u32, u32, usize))
        requires
            margin.wf(),
            chance.wf(),
            old(self)@.population.len() > 0,
            old(self)@.uniform(),
            forall|v: &Vec<T>| v@.len() > 0 ==> call_requires(*average, (v,)),
            forall|k: u64| k < DRAW_RESOLUTION ==> call_requires(*from_draw, (k,)),
        ensures
            is_best(old(self)@.scores(), report.0),
            report.1 == average_of(old(self)@.scores()),
            report.2 > 0,
            exists|chosen: Seq<usize>, champion: NeuralNetworkView<T>|
                {
                    &&& is_selection(old(self)@.scores(), report.0, margin, chosen)
                    &&& report.2 == chosen.len()
                    &&& #[trigger] old(self)@.evolves_to(
                        final(self)@,
                        chosen,
                        champion,
                        chance,
                        *average,
                        *from_draw,
                    )
                },
            final(self)@.uniform(),
            final(self)@.population.len() == old(self)@.population.len(),
            forall|i: int|
                0 <= i < old(self)@.population.len() ==> (#[trigger] final(self)@.population[i])
                    == old(self)@.population[i].with_brain(final(self)@.population[i].brain),
            old(self)@.wf() ==> final(self)@.wf(),
    {
        let ghost before = self@;
        let selection = self.select(margin);
        let ghost chosen = selection.eligible@;
        proof {
            assert forall|a: int| 0 <= a < chosen.len() implies before.brains()[chosen[0] as int].same_shape(
                before.brains()[(#[trigger] chosen[a]) as int],
            ) by {
                assert(chosen[a] < before.scores().len());
                assert(chosen[0] < before.scores().len());
            }
            assert forall|a: int| 0 <= a < chosen.len() implies (#[trigger] chosen[a])
                < before.brains().len() by {
                assert(chosen[a] < before.scores().len());
            }
        }
        let champion = self.merge_brains(&selection.eligible, average);
        let n = self.population.len();
        let mut i: usize = 0;
        while i < n
            invariant
                i <= n,
                chance.wf(),
                forall|k: u64| k < DRAW_RESOLUTION ==> call_requires(*from_draw, (k,)),
                n == self.population@.len(),
                n == old(self).population@.len(),
                forall|j: int|
                    0 <= j < i ==> {
                        let m = (#[trigger] self.population@[j])@;
                        &&& champion@.mutates_to(m.brain@, chance, *from_draw)
                        &&& m == old(self).population@[j]@.with_brain(m.brain)
                    },
                forall|j: int| i <= j < n ==> self.population@[j] == old(self).population@[j],
            decreases n - i,
        {
            let mut brain = champion.duplicate();
            brain.mutate(chance, rng, from_draw);
            self.population[i].brain = brain;
            i += 1;
        }
        proof {
            let after = self@;
            assert forall|j: int| 0 <= j < n implies {
                let m = #[trigger] after.population[j];
                &&& champion@.mutates_to(m.brain@, chance, *from_draw)
                &&& m == before.population[j].with_brain(m.brain)
            } by {
                assert(after.population[j] == self.population@[j]@);
            }
            assert(before.evolves_to(after, chosen, champion@, chance, *average, *from_draw));
            assert forall|a: int, b: int|
                0 <= a < after.population.len() && 0 <= b < after.population.len() implies (
            #[trigger] after.brains()[a]).same_shape(#[trigger] after.brains()[b]) by {
                assert(after.population[a] == self.population@[a]@);
                assert(after.population[b] == self.population@[b]@);
                lemma_mutation_keeps_shape(champion@, after.brains()[a], chance, *from_draw);
                lemma_mutation_keeps_shape(champion@, after.brains()[b], chance, *from_draw);
                lemma_same_shape_equivalence(champion@, after.brains()[a], after.brains()[b]);
                lemma_same_shape_equivalence(after.brains()[a], champion@, after.brains()[b]);
            }
            if before.wf() {
                assert forall|j: int| 0 <= j < n implies (#[trigger] after.population[j]).wf() by {
                    assert(before.population[j].wf());
                    assert(after.population[j] == self.population@[j]@);
                }
            }
        }
        (selection.best_score, selection.average_score, selection.eligible.len())
    }
}

} // verus!
