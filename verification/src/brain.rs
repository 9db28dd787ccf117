use crate::activation::ActivationFunction;
use crate::fraction::Fraction;
use crate::rng::random_below;
use rand::rngs::StdRng;
use vstd::prelude::*;

verus! {

/// How many values a controller's brain takes: two for each of eight rays.
pub const VISION_SIZE: usize = 16;

/// How many neurons each of the two inner layers of a controller's brain has.
pub const HIDDEN_SIZE: usize = 16;

/// How many values a controller's brain gives: one for each heading.
pub const ACTION_COUNT: usize = 4;

/// How many values a fresh parameter is drawn from. A caller that reads the
/// draw `k` as the number `k / DRAW_RESOLUTION` gets a number in `[0, 1)`.
pub const DRAW_RESOLUTION: u64 = 0x20_0000_0000_0000;

/// One dense layer: `weights[k][j]` leads from input `k` to output `j`, and
/// `biases[j]` is added to output `j`. The number type `T` is the caller's;
/// the library moves parameters about and never computes with them.
#[derive(Debug, Clone)]
pub struct Layer<T> {
    pub input_dim: usize,
    pub output_dim: usize,
    pub weights: Vec<Vec<T>>,
    pub biases: Vec<T>,
    pub activation: ActivationFunction,
}

/// The mathematical value of a [`Layer`].
pub struct LayerView<T> {
    pub input_dim: usize,
    pub output_dim: usize,
    pub weights: Seq<Seq<T>>,
    pub biases: Seq<T>,
    pub activation: ActivationFunction,
}

impl<T> View for Layer<T> {
    type V = LayerView<T>;

    open spec fn view(&self) -> LayerView<T> {
        LayerView {
            input_dim: self.input_dim,
            output_dim: self.output_dim,
            weights: self.weights@.map_values(|row: Vec<T>| row@),
            biases: self.biases@,
            activation: self.activation,
        }
    }
}

/// A feed-forward network: its layers, from input to output.
#[derive(Debug, Clone)]
pub struct NeuralNetwork<T> {
    pub layers: Vec<Layer<T>>,
}

/// The mathematical value of a [`NeuralNetwork`].
pub struct NeuralNetworkView<T> {
    pub layers: Seq<LayerView<T>>,
}

impl<T> View for NeuralNetwork<T> {
    type V = NeuralNetworkView<T>;

    open spec fn view(&self) -> NeuralNetworkView<T> {
        NeuralNetworkView { layers: self.layers@.map_values(|l: Layer<T>| l@) }
    }
}

/// `value` is what `from_draw` makes of some draw below `DRAW_RESOLUTION`.
pub open spec fn is_fresh<T, F: Fn(u64) -> T>(value: T, from_draw: F) -> bool {
    exists|k: u64| k < DRAW_RESOLUTION && #[trigger] call_ensures(from_draw, (k,), value)
}

/// `after` is what a mutation with chance `chance` may make of the parameter
/// `before`: the parameter itself, unless the chance is the whole; or,
/// unless the chance is nothing, a fresh value.
pub open spec fn is_mutation_of<T, F: Fn(u64) -> T>(
    before: T,
    after: T,
    chance: Fraction,
    from_draw: F,
) -> bool {
    ||| chance.numerator < chance.denominator && after == before
    ||| chance.numerator > 0 && is_fresh(after, from_draw)
}

impl<T> LayerView<T> {
    /// The parameters have the shape that the dimensions announce.
    pub open spec fn wf(self) -> bool {
        &&& self.weights.len() == self.input_dim
        &&& forall|k: int| 0 <= k < self.weights.len() ==> (#[trigger] self.weights[k]).len() == self.output_dim
        &&& self.biases.len() == self.output_dim
    }

    /// `other` has the dimensions, the activation and the parameter counts
    /// of this layer.
    pub open spec fn same_shape(self, other: LayerView<T>) -> bool {
        &&& self.input_dim == other.input_dim
        &&& self.output_dim == other.output_dim
        &&& self.activation == other.activation
        &&& self.weights.len() == other.weights.len()
        &&& forall|k: int|
            0 <= k < self.weights.len() ==> (#[trigger] self.weights[k]).len()
                == other.weights[k].len()
        &&& self.biases.len() == other.biases.len()
    }

    /// `after` has the shape of this layer, and each of its parameters is a
    /// mutation of the parameter in the same place.
    pub open spec fn mutates_to<F: Fn(u64) -> T>(
        self,
        after: LayerView<T>,
        chance: Fraction,
        from_draw: F,
    ) -> bool {
        &&& self.same_shape(after)
        &&& forall|k: int, j: int|
            0 <= k < self.weights.len() && 0 <= j < self.weights[k].len() ==> is_mutation_of(
                self.weights[k][j],
                #[trigger] after.weights[k][j],
                chance,
                from_draw,
            )
        &&& forall|j: int|
            0 <= j < self.biases.len() ==> is_mutation_of(
                self.biases[j],
                #[trigger] after.biases[j],
                chance,
                from_draw,
            )
    }
}

impl<T> LayerView<T> {
    /// Every weight and every bias is a fresh value.
    pub open spec fn all_fresh<F: Fn(u64) -> T>(self, from_draw: F) -> bool {
        &&& forall|k: int, j: int|
            0 <= k < self.weights.len() && 0 <= j < self.weights[k].len() ==> is_fresh(
                #[trigger] self.weights[k][j],
                from_draw,
            )
        &&& forall|j: int|
            0 <= j < self.biases.len() ==> is_fresh(#[trigger] self.biases[j], from_draw)
    }
}

impl<T> NeuralNetworkView<T> {
    /// Every weight and every bias of every layer is a fresh value.
    pub open spec fn all_fresh<F: Fn(u64) -> T>(self, from_draw: F) -> bool {
        forall|l: int| 0 <= l < self.layers.len() ==> (#[trigger] self.layers[l]).all_fresh(from_draw)
    }

    /// The network is the brain of a controller: it takes what the snake
    /// sees, sixteen values, through two layers of sixteen neurons that hand
    /// their sums on as they are, to four outputs, one per heading, that a
    /// softmax scales.
    pub open spec fn is_controller_brain(self) -> bool {
        &&& self.wf()
        &&& self.layers.len() == 3
        &&& self.layers[0].input_dim == VISION_SIZE
        &&& self.layers[0].output_dim == HIDDEN_SIZE
        &&& self.layers[1].output_dim == HIDDEN_SIZE
        &&& self.layers[2].output_dim == ACTION_COUNT
        &&& self.layers[0].activation == ActivationFunction::Identity
        &&& self.layers[1].activation == ActivationFunction::Identity
        &&& self.layers[2].activation == ActivationFunction::Softmax
    }

    /// Every layer is well shaped, and each hands on as many values as the
    /// next one takes.
    pub open spec fn wf(self) -> bool {
        &&& forall|l: int| 0 <= l < self.layers.len() ==> (#[trigger] self.layers[l]).wf()
        &&& forall|l: int|
            0 <= l < self.layers.len() - 1 ==> (#[trigger] self.layers[l]).output_dim
                == self.layers[l + 1].input_dim
    }

    /// `other` has as many layers, each of the same shape.
    pub open spec fn same_shape(self, other: NeuralNetworkView<T>) -> bool {
        &&& self.layers.len() == other.layers.len()
        &&& forall|l: int|
            0 <= l < self.layers.len() ==> (#[trigger] self.layers[l]).same_shape(other.layers[l])
    }

    /// `after` is a mutation of this network, layer by layer.
    pub open spec fn mutates_to<F: Fn(u64) -> T>(
        self,
        after: NeuralNetworkView<T>,
        chance: Fraction,
        from_draw: F,
    ) -> bool {
        &&& self.layers.len() == after.layers.len()
        &&& forall|l: int|
            0 <= l < self.layers.len() ==> (#[trigger] self.layers[l]).mutates_to(
                after.layers[l],
                chance,
                from_draw,
            )
    }
}

/// Having the same shape is symmetric and transitive, for layers as for
/// networks.
pub proof fn lemma_same_shape_equivalence<T>(
    a: NeuralNetworkView<T>,
    b: NeuralNetworkView<T>,
    c: NeuralNetworkView<T>,
)
    ensures
        a.same_shape(a),
        a.same_shape(b) ==> b.same_shape(a),
        a.same_shape(b) && b.same_shape(c) ==> a.same_shape(c),
{
    if a.same_shape(b) {
        assert forall|l: int| 0 <= l < b.layers.len() implies (#[trigger] b.layers[l]).same_shape(
            a.layers[l],
        ) by {
            let x = a.layers[l];
            let y = b.layers[l];
            assert(x.same_shape(y));
            assert forall|k: int| 0 <= k < y.weights.len() implies (#[trigger] y.weights[k]).len()
                == x.weights[k].len() by {
                assert(x.weights[k].len() == y.weights[k].len());
            }
        }
        if b.same_shape(c) {
            assert forall|l: int| 0 <= l < a.layers.len() implies (
            #[trigger] a.layers[l]).same_shape(c.layers[l]) by {
                let x = a.layers[l];
                let y = b.layers[l];
                let z = c.layers[l];
                assert(x.same_shape(y));
                assert(y.same_shape(z));
                assert forall|k: int| 0 <= k < x.weights.len() implies (
                #[trigger] x.weights[k]).len() == z.weights[k].len() by {
                    assert(x.weights[k].len() == y.weights[k].len());
                    assert(y.weights[k].len() == z.weights[k].len());
                }
            }
        }
    }
}

/// Two brains of controllers have the same shape.
pub proof fn lemma_controller_brains_same_shape<T>(a: NeuralNetworkView<T>, b: NeuralNetworkView<T>)
    requires
        a.is_controller_brain(),
        b.is_controller_brain(),
    ensures
        a.same_shape(b),
{
    assert(a.layers[0].output_dim == a.layers[1].input_dim);
    assert(a.layers[1].output_dim == a.layers[2].input_dim);
    assert(b.layers[0].output_dim == b.layers[1].input_dim);
    assert(b.layers[1].output_dim == b.layers[2].input_dim);
    assert forall|l: int| 0 <= l < a.layers.len() implies (#[trigger] a.layers[l]).same_shape(
        b.layers[l],
    ) by {
        assert(a.layers[l].wf());
        assert(b.layers[l].wf());
    }
}

/// A mutation leaves a network its shape.
pub proof fn lemma_mutation_keeps_shape<T, F: Fn(u64) -> T>(
    before: NeuralNetworkView<T>,
    after: NeuralNetworkView<T>,
    chance: Fraction,
    from_draw: F,
)
    requires
        before.mutates_to(after, chance, from_draw),
    ensures
        before.same_shape(after),
{
    assert forall|l: int| 0 <= l < before.layers.len() implies (
    #[trigger] before.layers[l]).same_shape(after.layers[l]) by {
        assert(before.layers[l].mutates_to(after.layers[l], chance, from_draw));
    }
}

/// A mutation with no chance changes nothing.
pub proof fn lemma_no_chance_no_change<T, F: Fn(u64) -> T>(
    before: NeuralNetworkView<T>,
    after: NeuralNetworkView<T>,
    chance: Fraction,
    from_draw: F,
)
    requires
        before.mutates_to(after, chance, from_draw),
        chance.numerator == 0,
    ensures
        after == before,
{
    assert forall|l: int| 0 <= l < before.layers.len() implies before.layers[l]
        == after.layers[l] by {
        let a = before.layers[l];
        let b = after.layers[l];
        assert(a.mutates_to(b, chance, from_draw));
        assert forall|k: int| 0 <= k < a.weights.len() implies a.weights[k] == b.weights[k] by {
            assert(a.weights[k].len() == b.weights[k].len());
            assert forall|j: int| 0 <= j < a.weights[k].len() implies a.weights[k][j]
                == b.weights[k][j] by {
                assert(is_mutation_of(a.weights[k][j], b.weights[k][j], chance, from_draw));
            }
            assert(a.weights[k] =~= b.weights[k]);
        }
        assert(a.weights =~= b.weights);
        assert forall|j: int| 0 <= j < a.biases.len() implies a.biases[j] == b.biases[j] by {
            assert(is_mutation_of(a.biases[j], b.biases[j], chance, from_draw));
        }
        assert(a.biases =~= b.biases);
    }
    assert(before.layers =~= after.layers);
}

/// A mutation with the whole chance draws every weight and every bias anew.
pub proof fn lemma_whole_chance_all_fresh<T, F: Fn(u64) -> T>(
    before: NeuralNetworkView<T>,
    after: NeuralNetworkView<T>,
    chance: Fraction,
    from_draw: F,
)
    requires
        before.mutates_to(after, chance, from_draw),
        chance.numerator == chance.denominator,
    ensures
        after.all_fresh(from_draw),
{
    assert forall|l: int| 0 <= l < after.layers.len() implies (#[trigger] after.layers[l]).all_fresh(
        from_draw,
    ) by {
        let a = before.layers[l];
        let b = after.layers[l];
        assert(a.mutates_to(b, chance, from_draw));
        assert forall|k: int, j: int|
            0 <= k < b.weights.len() && 0 <= j < b.weights[k].len() implies is_fresh(
            #[trigger] b.weights[k][j],
            from_draw,
        ) by {
            assert(a.weights[k].len() == b.weights[k].len());
            assert(is_mutation_of(a.weights[k][j], b.weights[k][j], chance, from_draw));
        }
        assert forall|j: int| 0 <= j < b.biases.len() implies is_fresh(
            #[trigger] b.biases[j],
            from_draw,
        ) by {
            assert(is_mutation_of(a.biases[j], b.biases[j], chance, from_draw));
        }
    }
}

/// `count` fresh values.
fn fresh_values<T: Copy, F: Fn(u64) -> T>(count: usize, rng: &mut StdRng, from_draw: &F) -> (values:
    Vec<T>)
    requires
        forall|k: u64| k < DRAW_RESOLUTION ==> call_requires(*from_draw, (k,)),
    ensures
        values@.len() == count,
        forall|j: int| 0 <= j < count ==> is_fresh(#[trigger] values@[j], *from_draw),
{
    let mut values: Vec<T> = Vec::new();
    let mut j: usize = 0;
    while j < count
        invariant
            j <= count,
            forall|k: u64| k < DRAW_RESOLUTION ==> call_requires(*from_draw, (k,)),
            values@.len() == j,
            forall|b: int| 0 <= b < j ==> is_fresh(#[trigger] values@[b], *from_draw),
        decreases count - j,
    {
        let draw = random_below(rng, DRAW_RESOLUTION);
        let value = from_draw(draw);
        values.push(value);
        j += 1;
    }
    values
}

/// Mutates one parameter: with chance `chance` it is replaced by what
/// `from_draw` makes of a fresh draw below `DRAW_RESOLUTION`.
pub fn mutate_parameter<T: Copy, F: Fn(u64) -> T>(
    value: T,
    chance: Fraction,
    rng: &mut StdRng,
    from_draw: &F,
) -> (r: T)
    requires
        chance.wf(),
        forall|k: u64| k < DRAW_RESOLUTION ==> call_requires(*from_draw, (k,)),
    ensures
        is_mutation_of(value, r, chance, *from_draw),
{
    let lot = random_below(rng, chance.denominator);
    resolve_parameter(value, chance, lot, random_below(rng, DRAW_RESOLUTION), from_draw)
}

/// What becomes of one parameter once the lots are cast: it is replaced by
/// what `from_draw` makes of `draw` if `lot`, one of `chance.denominator`
/// equal lots, falls among the first `chance.numerator`, and kept otherwise.
pub fn resolve_parameter<T: Copy, F: Fn(u64) -> T>(
    value: T,
    chance: Fraction,
    lot: u64,
    draw: u64,
    from_draw: &F,
) -> (r: T)
    requires
        chance.wf(),
        lot < chance.denominator,
        draw < DRAW_RESOLUTION,
        call_requires(*from_draw, (draw,)),
    ensures
        lot < chance.numerator ==> call_ensures(*from_draw, (draw,), r),
        lot >= chance.numerator ==> r == value,
        is_mutation_of(value, r, chance, *from_draw),
{
    if lot < chance.numerator {
        from_draw(draw)
    } else {
        value
    }
}

impl<T: Copy> Layer<T> {
    /// A layer of the given parts, taken as they are.
    pub fn new(
        input_dim: usize,
        output_dim: usize,
        weights: Vec<Vec<T>>,
        biases: Vec<T>,
        activation: ActivationFunction,
    ) -> (l: Layer<T>)
        ensures
            l@.input_dim == input_dim,
            l@.output_dim == output_dim,
            l@.weights == weights@.map_values(|row: Vec<T>| row@),
            l@.biases == biases@,
            l@.activation == activation,
    {
        Layer { input_dim, output_dim, weights, biases, activation }
    }

    /// A layer of the given dimensions whose weights and biases are all
    /// what `from_draw` makes of fresh draws below `DRAW_RESOLUTION`.
    pub fn random<F: Fn(u64) -> T>(
        input_dim: usize,
        output_dim: usize,
        activation: ActivationFunction,
        rng: &mut StdRng,
        from_draw: &F,
    ) -> (l: Layer<T>)
        requires
            forall|k: u64| k < DRAW_RESOLUTION ==> call_requires(*from_draw, (k,)),
        ensures
            l@.wf(),
            l@.input_dim == input_dim,
            l@.output_dim == output_dim,
            l@.activation == activation,
            l@.all_fresh(*from_draw),
    {
        let mut weights: Vec<Vec<T>> = Vec::new();
        let mut k: usize = 0;
        while k < input_dim
            invariant
                k <= input_dim,
                forall|d: u64| d < DRAW_RESOLUTION ==> call_requires(*from_draw, (d,)),
                weights@.len() == k,
                forall|a: int| 0 <= a < k ==> (#[trigger] weights@[a])@.len() == output_dim,
                forall|a: int, b: int|
                    0 <= a < k && 0 <= b < output_dim ==> is_fresh(
                        #[trigger] weights@[a]@[b],
                        *from_draw,
                    ),
            decreases input_dim - k,
        {
            let row = fresh_values(output_dim, rng, from_draw);
            weights.push(row);
            k += 1;
        }
        let biases = fresh_values(output_dim, rng, from_draw);
        let l = Layer { input_dim, output_dim, weights, biases, activation };
        proof {
            assert forall|a: int| 0 <= a < l@.weights.len() implies (#[trigger] l@.weights[a]).len()
                == output_dim by {
                assert(l@.weights[a] == l.weights@[a]@);
            }
            assert forall|a: int, b: int|
                0 <= a < l@.weights.len() && 0 <= b < l@.weights[a].len() implies is_fresh(
                #[trigger] l@.weights[a][b],
                *from_draw,
            ) by {
                assert(l@.weights[a] == l.weights@[a]@);
            }
        }
        l
    }

    /// Mutates every weight and every bias of the layer, each on its own.
    pub fn mutate<F: Fn(u64) -> T>(&mut self, chance: Fraction, rng: &mut StdRng, from_draw: &F)
        requires
            chance.wf(),
            forall|k: u64| k < DRAW_RESOLUTION ==> call_requires(*from_draw, (k,)),
        ensures
            old(self)@.mutates_to(final(self)@, chance, *from_draw),
    {
        let rows = self.weights.len();
        let mut k: usize = 0;
        while k < rows
            invariant
                k <= rows,
                chance.wf(),
                forall|d: u64| d < DRAW_RESOLUTION ==> call_requires(*from_draw, (d,)),
                self.input_dim == old(self).input_dim,
                self.output_dim == old(self).output_dim,
                self.activation == old(self).activation,
                self.biases == old(self).biases,
                rows == self.weights@.len(),
                rows == old(self).weights@.len(),
                forall|a: int|
                    0 <= a < rows ==> (#[trigger] self.weights@[a])@.len() == old(
                        self,
                    ).weights@[a]@.len(),
                forall|a: int, j: int|
                    0 <= a < k && 0 <= j < self.weights@[a]@.len() ==> is_mutation_of(
                        old(self).weights@[a]@[j],
                        #[trigger] self.weights@[a]@[j],
                        chance,
                        *from_draw,
                    ),
                forall|a: int| k <= a < rows ==> self.weights@[a] == old(self).weights@[a],
            decreases rows - k,
        {
            let columns = self.weights[k].len();
            let mut j: usize = 0;
            while j < columns
                invariant
                    j <= columns,
                    k < rows,
                    chance.wf(),
                    forall|d: u64| d < DRAW_RESOLUTION ==> call_requires(*from_draw, (d,)),
                    self.input_dim == old(self).input_dim,
                    self.output_dim == old(self).output_dim,
                    self.activation == old(self).activation,
                    self.biases == old(self).biases,
                    rows == self.weights@.len(),
                    rows == old(self).weights@.len(),
                    columns == self.weights@[k as int]@.len(),
                    forall|a: int|
                        0 <= a < rows ==> (#[trigger] self.weights@[a])@.len() == old(
                            self,
                        ).weights@[a]@.len(),
                    forall|a: int, b: int|
                        0 <= a < k && 0 <= b < self.weights@[a]@.len() ==> is_mutation_of(
                            old(self).weights@[a]@[b],
                            #[trigger] self.weights@[a]@[b],
                            chance,
                            *from_draw,
                        ),
                    forall|b: int|
                        0 <= b < j ==> is_mutation_of(
                            old(self).weights@[k as int]@[b],
                            #[trigger] self.weights@[k as int]@[b],
                            chance,
                            *from_draw,
                        ),
                    forall|b: int|
                        j <= b < columns ==> self.weights@[k as int]@[b] == old(
                            self,
                        ).weights@[k as int]@[b],
                    forall|a: int| k < a < rows ==> self.weights@[a] == old(self).weights@[a],
                decreases columns - j,
            {
                let value = self.weights[k][j];
                let fresh = mutate_parameter(value, chance, rng, from_draw);
                self.weights[k][j] = fresh;
                j += 1;
            }
            k += 1;
        }
        let count = self.biases.len();
        let mut j: usize = 0;
        while j < count
            invariant
                j <= count,
                chance.wf(),
                forall|d: u64| d < DRAW_RESOLUTION ==> call_requires(*from_draw, (d,)),
                self.input_dim == old(self).input_dim,
                self.output_dim == old(self).output_dim,
                self.activation == old(self).activation,
                count == self.biases@.len(),
                count == old(self).biases@.len(),
                rows == self.weights@.len(),
                rows == old(self).weights@.len(),
                forall|a: int|
                    0 <= a < rows ==> (#[trigger] self.weights@[a])@.len() == old(
                        self,
                    ).weights@[a]@.len(),
                forall|a: int, b: int|
                    0 <= a < rows && 0 <= b < self.weights@[a]@.len() ==> is_mutation_of(
                        old(self).weights@[a]@[b],
                        #[trigger] self.weights@[a]@[b],
                        chance,
                        *from_draw,
                    ),
                forall|b: int|
                    0 <= b < j ==> is_mutation_of(
                        old(self).biases@[b],
                        #[trigger] self.biases@[b],
                        chance,
                        *from_draw,
                    ),
                forall|b: int| j <= b < count ==> self.biases@[b] == old(self).biases@[b],
            decreases count - j,
        {
            let value = self.biases[j];
            let fresh = mutate_parameter(value, chance, rng, from_draw);
            self.biases[j] = fresh;
            j += 1;
        }
        proof {
            let a = old(self)@;
            let b = self@;
            assert forall|k: int, j: int|
                0 <= k < a.weights.len() && 0 <= j < a.weights[k].len() implies is_mutation_of(
                a.weights[k][j],
                #[trigger] b.weights[k][j],
                chance,
                *from_draw,
            ) by {
                assert(self.weights@[k]@.len() == old(self).weights@[k]@.len());
                assert(b.weights[k][j] == self.weights@[k]@[j]);
            }
            assert forall|k: int| 0 <= k < a.weights.len() implies (#[trigger] a.weights[k]).len()
                == b.weights[k].len() by {
                assert(self.weights@[k]@.len() == old(self).weights@[k]@.len());
            }
        }
    }
}

impl<T: Copy> Layer<T> {
    /// Whether `other` has the dimensions, the activation and the parameter
    /// counts of this layer.
    pub fn same_shape(&self, other: &Layer<T>) -> (same: bool)
        ensures
            same == self@.same_shape(other@),
    {
        if self.input_dim != other.input_dim || self.output_dim != other.output_dim
            || self.activation != other.activation || self.weights.len() != other.weights.len()
            || self.biases.len() != other.biases.len() {
            return false;
        }
        let rows = self.weights.len();
        let mut k: usize = 0;
        while k < rows
            invariant
                k <= rows,
                rows == self.weights@.len(),
                rows == other.weights@.len(),
                forall|a: int|
                    0 <= a < k ==> (#[trigger] self@.weights[a]).len() == other@.weights[a].len(),
            decreases rows - k,
        {
            assert(self@.weights[k as int] == self.weights@[k as int]@);
            assert(other@.weights[k as int] == other.weights@[k as int]@);
            if self.weights[k].len() != other.weights[k].len() {
                return false;
            }
            k += 1;
        }
        true
    }

    /// A second layer equal to this one.
    pub fn duplicate(&self) -> (l: Layer<T>)
        ensures
            l@ == self@,
    {
        let mut weights: Vec<Vec<T>> = Vec::new();
        let mut k: usize = 0;
        while k < self.weights.len()
            invariant
                k <= self.weights@.len(),
                weights@.len() == k,
                forall|a: int| 0 <= a < k ==> (#[trigger] weights@[a])@ == self.weights@[a]@,
            decreases self.weights.len() - k,
        {
            let mut row: Vec<T> = Vec::new();
            let columns = self.weights[k].len();
            let mut j: usize = 0;
            while j < columns
                invariant
                    k < self.weights@.len(),
                    columns == self.weights@[k as int]@.len(),
                    j <= columns,
                    row@.len() == j,
                    forall|b: int| 0 <= b < j ==> row@[b] == self.weights@[k as int]@[b],
                decreases columns - j,
            {
                row.push(self.weights[k][j]);
                j += 1;
            }
            assert(row@ =~= self.weights@[k as int]@);
            weights.push(row);
            k += 1;
        }
        let mut biases: Vec<T> = Vec::new();
        let mut j: usize = 0;
        while j < self.biases.len()
            invariant
                j <= self.biases@.len(),
                biases@.len() == j,
                forall|b: int| 0 <= b < j ==> biases@[b] == self.biases@[b],
            decreases self.biases.len() - j,
        {
            biases.push(self.biases[j]);
            j += 1;
        }
        let l = Layer {
            input_dim: self.input_dim,
            output_dim: self.output_dim,
            weights,
            biases,
            activation: self.activation,
        };
        assert(l@.weights =~= self@.weights);
        assert(l@.biases =~= self@.biases);
        l
    }
}

impl<T: Copy> NeuralNetwork<T> {
    /// A network with no layer.
    pub fn new() -> (n: NeuralNetwork<T>)
        ensures
            n@.layers == Seq::<LayerView<T>>::empty(),
    {
        let n = NeuralNetwork { layers: Vec::new() };
        assert(n@.layers =~= Seq::<LayerView<T>>::empty());
        n
    }

    /// Puts `layer` behind the layers that are there, and hands the network
    /// back for the next layer.
    pub fn add_layer(&mut self, layer: Layer<T>) -> (r: &mut Self)
        ensures
            r@.layers == old(self)@.layers.push(layer@),
            *final(self) == *final(r),
    {
        self.layers.push(layer);
        assert(self@.layers =~= old(self)@.layers.push(layer@));
        self
    }

    /// A brain for a controller, with every weight and every bias drawn
    /// afresh.
    pub fn random_controller_brain<F: Fn(u64) -> T>(rng: &mut StdRng, from_draw: &F) -> (n:
        NeuralNetwork<T>)
        requires
            forall|k: u64| k < DRAW_RESOLUTION ==> call_requires(*from_draw, (k,)),
        ensures
            n@.is_controller_brain(),
            n@.all_fresh(*from_draw),
    {
        let first = Layer::random(
            VISION_SIZE,
            HIDDEN_SIZE,
            ActivationFunction::Identity,
            rng,
            from_draw,
        );
        let second = Layer::random(
            HIDDEN_SIZE,
            HIDDEN_SIZE,
            ActivationFunction::Identity,
            rng,
            from_draw,
        );
        let third = Layer::random(
            HIDDEN_SIZE,
            ACTION_COUNT,
            ActivationFunction::Softmax,
            rng,
            from_draw,
        );
        let mut n = NeuralNetwork::new();
        n.add_layer(first).add_layer(second).add_layer(third);
        n
    }

    /// Whether `other` has as many layers as this network, each of the same
    /// shape.
    pub fn same_shape(&self, other: &NeuralNetwork<T>) -> (same: bool)
        ensures
            same == self@.same_shape(other@),
    {
        if self.layers.len() != other.layers.len() {
            return false;
        }
        let n = self.layers.len();
        let mut l: usize = 0;
        while l < n
            invariant
                l <= n,
                n == self.layers@.len(),
                n == other.layers@.len(),
                forall|a: int|
                    0 <= a < l ==> (#[trigger] self@.layers[a]).same_shape(other@.layers[a]),
            decreases n - l,
        {
            assert(self@.layers[l as int] == self.layers@[l as int]@);
            assert(other@.layers[l as int] == other.layers@[l as int]@);
            if !self.layers[l].same_shape(&other.layers[l]) {
                return false;
            }
            l += 1;
        }
        true
    }

    /// A second network equal to this one.
    pub fn duplicate(&self) -> (n: NeuralNetwork<T>)
        ensures
            n@ == self@,
    {
        let mut layers: Vec<Layer<T>> = Vec::new();
        let mut l: usize = 0;
        while l < self.layers.len()
            invariant
                l <= self.layers@.len(),
                layers@.len() == l,
                forall|a: int| 0 <= a < l ==> (#[trigger] layers@[a])@ == self.layers@[a]@,
            decreases self.layers.len() - l,
        {
            layers.push(self.layers[l].duplicate());
            l += 1;
        }
        let n = NeuralNetwork { layers };
        assert(n@.layers =~= self@.layers);
        n
    }

    /// Mutates every weight and every bias of the network, each on its own:
    /// with chance `chance` a parameter is replaced by what `from_draw`
    /// makes of a fresh draw below `DRAW_RESOLUTION`, and kept otherwise.
    /// With no chance the network is left as it is.
    pub fn mutate<F: Fn(u64) -> T>(&mut self, chance: Fraction, rng: &mut StdRng, from_draw: &F)
        requires
            chance.wf(),
            forall|k: u64| k < DRAW_RESOLUTION ==> call_requires(*from_draw, (k,)),
        ensures
            old(self)@.mutates_to(final(self)@, chance, *from_draw),
            chance.numerator == 0 ==> final(self)@ == old(self)@,
    {
        let n = self.layers.len();
        let mut l: usize = 0;
        while l < n
            invariant
                l <= n,
                chance.wf(),
                forall|k: u64| k < DRAW_RESOLUTION ==> call_requires(*from_draw, (k,)),
                n == self.layers@.len(),
                n == old(self).layers@.len(),
                forall|a: int|
                    0 <= a < l ==> (#[trigger] old(self).layers@[a])@.mutates_to(
                        self.layers@[a]@,
                        chance,
                        *from_draw,
                    ),
                forall|a: int| l <= a < n ==> self.layers@[a] == old(self).layers@[a],
            decreases n - l,
        {
            self.layers[l].mutate(chance, rng, from_draw);
            l += 1;
        }
        proof {
            assert forall|a: int| 0 <= a < n implies (#[trigger] old(self)@.layers[a]).mutates_to(
                self@.layers[a],
                chance,
                *from_draw,
            ) by {
                assert(old(self).layers@[a]@.mutates_to(self.layers@[a]@, chance, *from_draw));
            }
            if chance.numerator == 0 {
                lemma_no_chance_no_change(old(self)@, self@, chance, *from_draw);
            }
        }
    }
}

} // verus!
