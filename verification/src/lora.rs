//! Adapters of low rank: the layout of their matrices, gradients and optimizer states.
//!
//! All values are 32-bit floating-point numbers, held as their bits; zero is the bits 0.

use vstd::prelude::*;

use crate::text;
use crate::training;
use crate::training::{USUAL_ALPHA, USUAL_LEARNING_RATE, USUAL_WEIGHT_DECAY};

verus! {

#[derive(Debug, PartialEq, Eq)]
pub enum LoraError {
    DimensionMismatch { expected: usize, actual: usize },
    LayerNotFound(String),
}

/// Whether a row has the expected length.
pub fn check_len(actual: usize, expected: usize) -> (r: Result<(), LoraError>)
    ensures
        match r {
            Ok(_) => actual == expected,
            Err(e) => actual != expected && e == (LoraError::DimensionMismatch {
                expected,
                actual,
            }),
        },
{
    if actual == expected {
        Ok(())
    } else {
        Err(LoraError::DimensionMismatch { expected, actual })
    }
}

/// One layer. The matrices are stored row by row: `weight_a` is `rank` by `in_features`, `weight_b`
/// is `out_features` by `rank`.
#[derive(Debug)]
pub struct LoraLayer {
    pub name: String,
    pub in_features: usize,
    pub out_features: usize,
    pub rank: usize,
    pub alpha: u32,
    pub scale: u32,
    pub weight_a: Vec<u32>,
    pub weight_b: Vec<u32>,
    /// Gradients, added up over micro-batches.
    pub grad_a: Vec<u32>,
    pub grad_b: Vec<u32>,
    /// First and second moments of the optimizer.
    pub m_a: Vec<u32>,
    pub v_a: Vec<u32>,
    pub m_b: Vec<u32>,
    pub v_b: Vec<u32>,
    pub step: u32,
}

pub open spec fn zeros(n: int) -> Seq<u32> {
    Seq::new(n as nat, |i: int| 0u32)
}

/// What a layer is apart from its training state.
pub open spec fn same_weights(a: LoraLayer, b: LoraLayer) -> bool {
    &&& a.name@ == b.name@
    &&& a.in_features == b.in_features
    &&& a.out_features == b.out_features
    &&& a.rank == b.rank
    &&& a.alpha == b.alpha
    &&& a.scale == b.scale
    &&& a.weight_a@ == b.weight_a@
    &&& a.weight_b@ == b.weight_b@
}

/// What of the training state is not a gradient.
pub open spec fn same_moments(a: LoraLayer, b: LoraLayer) -> bool {
    &&& a.m_a@ == b.m_a@
    &&& a.v_a@ == b.v_a@
    &&& a.m_b@ == b.m_b@
    &&& a.v_b@ == b.v_b@
    &&& a.step == b.step
}

/// A layer is ready for training: gradients and moments are as long as the matrices, and the
/// matrices are as large as the dimensions say.
pub open spec fn trainable(l: LoraLayer) -> bool {
    let a = l.in_features * l.rank;
    let b = l.rank * l.out_features;
    &&& l.weight_a@.len() == a
    &&& l.weight_b@.len() == b
    &&& l.grad_a@.len() == a
    &&& l.grad_b@.len() == b
    &&& l.m_a@.len() == a
    &&& l.v_a@.len() == a
    &&& l.m_b@.len() == b
    &&& l.v_b@.len() == b
}

fn zero_row(n: usize) -> (r: Vec<u32>)
    ensures
        r@ == zeros(n as int),
{
    let mut out: Vec<u32> = Vec::new();
    let mut i: usize = 0;
    while i < n
        invariant
            i <= n,
            out@ == zeros(i as int),
        decreases n - i,
    {
        out.push(0);
        i += 1;
        assert(out@ =~= zeros(i as int));
    }
    out
}

impl LoraLayer {
    pub fn num_parameters(&self) -> (r: usize)
        requires
            self.weight_a@.len() + self.weight_b@.len() <= usize::MAX,
        ensures
            r == self.weight_a@.len() + self.weight_b@.len(),
    {
        self.weight_a.len() + self.weight_b.len()
    }

    /// Sets all gradients to zero.
    pub fn zero_grad(&mut self)
        ensures
            same_weights(*final(self), *old(self)),
            same_moments(*final(self), *old(self)),
            final(self).grad_a@ == zeros(old(self).grad_a@.len() as int),
            final(self).grad_b@ == zeros(old(self).grad_b@.len() as int),
    {
        self.grad_a = zero_row(self.grad_a.len());
        self.grad_b = zero_row(self.grad_b.len());
    }

    /// Prepares a layer for training after it has been loaded: gradients and moments are not stored
    /// with it, so they start from zero, and so does the step. A layer whose matrices do not fit its
    /// dimensions is refused and left as it is.
    pub fn restore_training_state(&mut self) -> (r: Result<(), LoraError>)
        requires
            old(self).in_features * old(self).rank <= usize::MAX,
            old(self).rank * old(self).out_features <= usize::MAX,
        ensures
            match r {
                Ok(_) => {
                    &&& same_weights(*final(self), *old(self))
                    &&& trainable(*final(self))
                    &&& final(self).step == 0
                    &&& final(self).grad_a@ == zeros(final(self).weight_a@.len() as int)
                    &&& final(self).grad_b@ == zeros(final(self).weight_b@.len() as int)
                    &&& final(self).m_a@ == zeros(final(self).weight_a@.len() as int)
                    &&& final(self).v_a@ == zeros(final(self).weight_a@.len() as int)
                    &&& final(self).m_b@ == zeros(final(self).weight_b@.len() as int)
                    &&& final(self).v_b@ == zeros(final(self).weight_b@.len() as int)
                },
                Err(e) => {
                    let a = (old(self).in_features * old(self).rank) as usize;
                    let b = (old(self).rank * old(self).out_features) as usize;
                    let len_a = old(self).weight_a@.len() as usize;
                    let len_b = old(self).weight_b@.len() as usize;
                    &&& *final(self) == *old(self)
                    &&& len_a != a ==> e == (LoraError::DimensionMismatch {
                        expected: a,
                        actual: len_a,
                    })
                    &&& len_a == a ==> len_b != b && e == (LoraError::DimensionMismatch {
                        expected: b,
                        actual: len_b,
                    })
                },
            },
    {
        let expected_a = self.in_features * self.rank;
        let len_a = self.weight_a.len();
        check_len(len_a, expected_a)?;
        let expected_b = self.rank * self.out_features;
        let len_b = self.weight_b.len();
        check_len(len_b, expected_b)?;
        self.grad_a = zero_row(expected_a);
        self.grad_b = zero_row(expected_b);
        self.m_a = zero_row(expected_a);
        self.v_a = zero_row(expected_a);
        self.m_b = zero_row(expected_b);
        self.v_b = zero_row(expected_b);
        self.step = 0;
        Ok(())
    }
}

/// What an adapter is made for. The numbers that are not whole are held as their bits.
#[derive(Debug)]
pub struct LoraConfig {
    pub rank: usize,
    pub alpha: u32,
    pub target_modules: Vec<String>,
    pub dropout: u32,
    pub learning_rate: u32,
    pub weight_decay: u32,
}

impl Default for LoraConfig {
    fn default() -> (r: Self)
        ensures
            r.rank == 16,
            r.alpha == USUAL_ALPHA,
            text::views(r.target_modules@) == training::attention_modules() + seq![
                "gate_proj"@,
                "up_proj"@,
                "down_proj"@,
            ],
            r.dropout == 0,
            r.learning_rate == USUAL_LEARNING_RATE,
            r.weight_decay == USUAL_WEIGHT_DECAY,
    {
        let mut target_modules: Vec<String> = Vec::new();
        target_modules.push("q_proj".to_owned());
        target_modules.push("k_proj".to_owned());
        target_modules.push("v_proj".to_owned());
        target_modules.push("o_proj".to_owned());
        target_modules.push("gate_proj".to_owned());
        target_modules.push("up_proj".to_owned());
        target_modules.push("down_proj".to_owned());
        assert(text::views(target_modules@) =~= training::attention_modules() + seq![
            "gate_proj"@,
            "up_proj"@,
            "down_proj"@,
        ]);
        LoraConfig {
            rank: 16,
            alpha: USUAL_ALPHA,
            target_modules,
            dropout: 0,
            learning_rate: USUAL_LEARNING_RATE,
            weight_decay: USUAL_WEIGHT_DECAY,
        }
    }
}

/// The layers of an adapter, by name.
#[derive(Debug)]
pub struct LoraModel {
    pub config: LoraConfig,
    /// By rising name; no name occurs twice.
    pub layers: Vec<(String, LoraLayer)>,
}

/// Names rise from layer to layer.
pub open spec fn names_rise(layers: Seq<(String, LoraLayer)>) -> bool {
    forall|i: int, j: int|
        0 <= i < j < layers.len() ==> text::before(
            (#[trigger] layers[i]).0@,
            (#[trigger] layers[j]).0@,
        )
}

/// The layers after the first `n` of a list were put in.
pub open spec fn all_placed(list: Seq<(String, LoraLayer)>, n: int) -> Seq<(String, LoraLayer)>
    decreases n,
{
    if n <= 0 {
        Seq::empty()
    } else {
        with_layer(all_placed(list, n - 1), list[n - 1])
    }
}

/// The gradients of a layer in one row.
pub open spec fn layer_grads(l: LoraLayer) -> Seq<u32> {
    l.grad_a@ + l.grad_b@
}

/// The gradients of the first `n` layers in one row.
pub open spec fn flat(layers: Seq<(String, LoraLayer)>, n: int) -> Seq<u32>
    decreases n,
{
    if n <= 0 {
        Seq::empty()
    } else {
        flat(layers, n - 1) + layer_grads(layers[n - 1].1)
    }
}

/// How many parameters the first `n` layers have.
pub open spec fn parameter_sum(layers: Seq<(String, LoraLayer)>, n: int) -> int
    decreases n,
{
    if n <= 0 {
        0
    } else {
        parameter_sum(layers, n - 1) + layers[n - 1].1.weight_a@.len()
            + layers[n - 1].1.weight_b@.len()
    }
}

/// The first layer among those from `k` on for which the row is too short, given that the row
/// serves the layers before.
pub open spec fn short_at(layers: Seq<(String, LoraLayer)>, len: int, k: int) -> Option<int>
    decreases layers.len() - k,
{
    if k >= layers.len() {
        None
    } else if flat(layers, k + 1).len() > len {
        Some(k)
    } else {
        short_at(layers, len, k + 1)
    }
}

proof fn lemma_flat_grows(layers: Seq<(String, LoraLayer)>, k: int, n: int)
    requires
        0 <= k <= n,
    ensures
        flat(layers, k).len() <= flat(layers, n).len(),
    decreases n - k,
{
    if k < n {
        lemma_flat_grows(layers, k, n - 1);
    }
}

proof fn lemma_sum_grows(layers: Seq<(String, LoraLayer)>, k: int, n: int)
    requires
        0 <= k <= n,
    ensures
        0 <= parameter_sum(layers, k) <= parameter_sum(layers, n),
    decreases n,
{
    if n > 0 {
        if k < n {
            lemma_sum_grows(layers, k, n - 1);
        } else {
            lemma_sum_grows(layers, k - 1, n - 1);
        }
    }
}

/// Layers `b` are layers `a` with the gradients of the first `n` taken from a row.
pub open spec fn grads_taken(
    a: Seq<(String, LoraLayer)>,
    b: Seq<(String, LoraLayer)>,
    grads: Seq<u32>,
    n: int,
) -> bool {
    &&& a.len() == b.len()
    &&& forall|i: int|
        0 <= i < a.len() ==> (#[trigger] b[i]).0@ == a[i].0@ && same_weights(b[i].1, a[i].1)
            && same_moments(b[i].1, a[i].1) && b[i].1.grad_a@.len() == a[i].1.grad_a@.len()
            && b[i].1.grad_b@.len() == a[i].1.grad_b@.len()
    &&& forall|i: int|
        0 <= i < n ==> layer_grads((#[trigger] b[i]).1) == grads.subrange(
            flat(a, i).len() as int,
            flat(a, i + 1).len() as int,
        )
    &&& forall|i: int|
        n <= i < a.len() ==> (#[trigger] b[i]).1.grad_a@ == a[i].1.grad_a@ && b[i].1.grad_b@
            == a[i].1.grad_b@
}

/// How many of the names from `k` on come before a name, as long as they do.
pub open spec fn place(layers: Seq<(String, LoraLayer)>, name: Seq<char>, k: int) -> int
    decreases layers.len() - k,
{
    if k < layers.len() && text::before(layers[k].0@, name) {
        place(layers, name, k + 1)
    } else {
        k
    }
}

/// The layers with one more, in place of the one of the same name where there is one.
pub open spec fn with_layer(layers: Seq<(String, LoraLayer)>, item: (String, LoraLayer)) -> Seq<
    (String, LoraLayer),
> {
    let k = place(layers, item.0@, 0);
    if k < layers.len() && layers[k].0@ == item.0@ {
        layers.update(k, item)
    } else {
        layers.insert(k, item)
    }
}

proof fn lemma_place(layers: Seq<(String, LoraLayer)>, name: Seq<char>, k: int)
    requires
        0 <= k <= layers.len(),
        forall|i: int| 0 <= i < k ==> text::before((#[trigger] layers[i]).0@, name),
    ensures
        k <= place(layers, name, k) <= layers.len(),
        forall|i: int|
            0 <= i < place(layers, name, k) ==> text::before((#[trigger] layers[i]).0@, name),
        place(layers, name, k) < layers.len() ==> !text::before(
            layers[place(layers, name, k)].0@,
            name,
        ),
    decreases layers.len() - k,
{
    if k < layers.len() && text::before(layers[k].0@, name) {
        lemma_place(layers, name, k + 1);
    }
}

/// A layer that is put in keeps the names rising.
pub proof fn law_layers_stay_in_order(
    layers: Seq<(String, LoraLayer)>,
    item: (String, LoraLayer),
)
    requires
        names_rise(layers),
    ensures
        names_rise(with_layer(layers, item)),
{
    let name = item.0@;
    lemma_place(layers, name, 0);
    let k = place(layers, name, 0);
    let after = with_layer(layers, item);
    let replaced = k < layers.len() && layers[k].0@ == name;
    if k < layers.len() && !replaced {
        text::lemma_before_is_total(layers[k].0@, name);
    }
    assert forall|i: int, j: int| 0 <= i < j < after.len() implies text::before(
        (#[trigger] after[i]).0@,
        (#[trigger] after[j]).0@,
    ) by {
        if replaced {
            assert(text::before(layers[i].0@, layers[j].0@));
        } else {
            let a = if i < k {
                i
            } else {
                i - 1
            };
            let b = if j < k {
                j
            } else {
                j - 1
            };
            if i != k && j != k {
                assert(text::before(layers[a].0@, layers[b].0@));
            } else if i == k {
                assert(after[j] == layers[b]);
                if b > k {
                    assert(text::before(layers[k].0@, layers[b].0@));
                    text::lemma_before_is_transitive(name, layers[k].0@, layers[b].0@);
                }
            } else {
                assert(after[i] == layers[i]);
            }
        }
    }
}

fn copy_part(row: &[u32], start: usize, end: usize) -> (r: Vec<u32>)
    requires
        start <= end <= row@.len(),
    ensures
        r@ == row@.subrange(start as int, end as int),
{
    vstd::slice::slice_to_vec(vstd::slice::slice_subrange(row, start, end))
}

impl LoraModel {
    pub open spec fn wf(self) -> bool {
        names_rise(self.layers@)
    }

    /// An adapter of these layers; of several of one name, the last.
    pub fn new(config: LoraConfig, layers: Vec<(String, LoraLayer)>) -> (r: Self)
        ensures
            r.wf(),
            r.config == config,
            r.layers@ == all_placed(layers@, layers@.len() as int),
    {
        let ghost all = layers@;
        let mut model = LoraModel { config, layers: Vec::new() };
        assert(model.layers@ =~= all_placed(all, 0));
        for item in it: layers
            invariant
                it.seq() == all,
                model.wf(),
                model.config == config,
                model.layers@ == all_placed(all, it.index() as int),
        {
            let (name, layer) = item;
            model.insert_layer(name, layer);
        }
        model
    }

    /// Puts a layer in, in place of the one of the same name where there is one.
    pub fn insert_layer(&mut self, name: String, layer: LoraLayer)
        requires
            old(self).wf(),
        ensures
            final(self).wf(),
            final(self).config == old(self).config,
            final(self).layers@ == with_layer(old(self).layers@, (name, layer)),
    {
        let ghost before = self.layers@;
        let mut k: usize = 0;
        while k < self.layers.len() && text::comes_before(self.layers[k].0.as_str(), name.as_str())
            invariant
                k <= self.layers@.len(),
                self.layers@ == before,
                self.config == old(self).config,
                place(before, name@, k as int) == place(before, name@, 0),
            decreases self.layers@.len() - k,
        {
            k += 1;
        }
        proof {
            law_layers_stay_in_order(before, (name, layer));
        }
        if k < self.layers.len() && self.layers[k].0 == name {
            self.layers.set(k, (name, layer));
        } else {
            self.layers.insert(k, (name, layer));
        }
    }

    /// The number of parameters of all layers.
    pub fn total_parameters(&self) -> (r: usize)
        requires
            parameter_sum(self.layers@, self.layers@.len() as int) <= usize::MAX,
        ensures
            r == parameter_sum(self.layers@, self.layers@.len() as int),
    {
        let mut total: usize = 0;
        let mut i: usize = 0;
        while i < self.layers.len()
            invariant
                i <= self.layers@.len(),
                total == parameter_sum(self.layers@, i as int),
                parameter_sum(self.layers@, self.layers@.len() as int) <= usize::MAX,
            decreases self.layers@.len() - i,
        {
            proof {
                lemma_sum_grows(self.layers@, i + 1, self.layers@.len() as int);
            }
            total = total + self.layers[i].1.num_parameters();
            i += 1;
        }
        total
    }

    /// Sets the gradients of all layers to zero.
    pub fn zero_grad(&mut self)
        ensures
            final(self).config == old(self).config,
            final(self).layers@.len() == old(self).layers@.len(),
            forall|i: int|
                0 <= i < final(self).layers@.len() ==> {
                    let l = (#[trigger] final(self).layers@[i]);
                    let o = old(self).layers@[i];
                    l.0@ == o.0@ && same_weights(l.1, o.1) && same_moments(l.1, o.1)
                        && l.1.grad_a@ == zeros(o.1.grad_a@.len() as int) && l.1.grad_b@ == zeros(
                        o.1.grad_b@.len() as int,
                    )
                },
    {
        let ghost before = self.layers@;
        let n = self.layers.len();
        let mut i: usize = 0;
        while i < n
            invariant
                i <= n,
                n == before.len(),
                self.config == old(self).config,
                self.layers@.len() == n,
                forall|k: int| i <= k < n ==> #[trigger] self.layers@[k] == before[k],
                forall|k: int|
                    0 <= k < i ==> {
                        let l = (#[trigger] self.layers@[k]);
                        let o = before[k];
                        l.0@ == o.0@ && same_weights(l.1, o.1) && same_moments(l.1, o.1)
                            && l.1.grad_a@ == zeros(o.1.grad_a@.len() as int) && l.1.grad_b@
                            == zeros(o.1.grad_b@.len() as int)
                    },
            decreases n - i,
        {
            let (name, layer) = self.layers.remove(i);
            let mut layer = layer;
            layer.zero_grad();
            self.layers.insert(i, (name, layer));
            i += 1;
        }
    }

    /// The gradients of all layers in one row, layer by layer in the order of their names.
    pub fn get_flat_gradients(&self) -> (r: Vec<u32>)
        ensures
            r@ == flat(self.layers@, self.layers@.len() as int),
    {
        let mut out: Vec<u32> = Vec::new();
        let mut i: usize = 0;
        while i < self.layers.len()
            invariant
                i <= self.layers@.len(),
                out@ == flat(self.layers@, i as int),
            decreases self.layers@.len() - i,
        {
            let ghost before = out@;
            let layer = &self.layers[i].1;
            let mut a = copy_part(layer.grad_a.as_slice(), 0, layer.grad_a.len());
            let mut b = copy_part(layer.grad_b.as_slice(), 0, layer.grad_b.len());
            out.append(&mut a);
            out.append(&mut b);
            assert(out@ =~= before + layer_grads(*layer));
            i += 1;
        }
        out
    }

    /// Takes the gradients of all layers from one row. If the row is too short for a layer, the
    /// layers before it have taken theirs already.
    pub fn set_flat_gradients(&mut self, grads: &[u32]) -> (r: Result<(), LoraError>)
        requires
            flat(old(self).layers@, old(self).layers@.len() as int).len() <= usize::MAX,
        ensures
            final(self).config == old(self).config,
            match short_at(old(self).layers@, grads@.len() as int, 0) {
                None => r is Ok && grads_taken(
                    old(self).layers@,
                    final(self).layers@,
                    grads@,
                    old(self).layers@.len() as int,
                ),
                Some(k) => r == Err::<(), LoraError>(
                    LoraError::DimensionMismatch {
                        expected: flat(old(self).layers@, k + 1).len() as usize,
                        actual: grads@.len() as usize,
                    },
                ) && grads_taken(old(self).layers@, final(self).layers@, grads@, k),
            },
    {
        let ghost before = self.layers@;
        let n = self.layers.len();
        let total = grads.len();
        let mut offset: usize = 0;
        let mut i: usize = 0;
        while i < n
            invariant
                i <= n,
                n == before.len(),
                total == grads@.len(),
                flat(before, n as int).len() <= usize::MAX,
                self.layers@.len() == n,
                offset == flat(before, i as int).len(),
                offset <= total,
                grads_taken(before, self.layers@, grads@, i as int),
                short_at(before, total as int, i as int) == short_at(before, total as int, 0),
                before == old(self).layers@,
                self.config == old(self).config,
            decreases n - i,
        {
            proof {
                lemma_flat_grows(before, i + 1, n as int);
            }
            let ghost now = self.layers@;
            assert(now[i as int].1.grad_a@.len() == before[i as int].1.grad_a@.len());
            let len_a = self.layers[i].1.grad_a.len();
            let len_b = self.layers[i].1.grad_b.len();
            if offset + len_a + len_b > total {
                return Err(
                    LoraError::DimensionMismatch {
                        expected: offset + len_a + len_b,
                        actual: total,
                    },
                );
            }
            let middle = offset + len_a;
            let end = middle + len_b;
            let (name, layer) = self.layers.remove(i);
            let mut layer = layer;
            layer.grad_a = copy_part(grads, offset, middle);
            layer.grad_b = copy_part(grads, middle, end);
            assert(layer_grads(layer) =~= grads@.subrange(offset as int, end as int));
            self.layers.insert(i, (name, layer));
            proof {
                let after = self.layers@;
                assert forall|k: int| 0 <= k < before.len() && k != i implies after[k]
                    == now[k] by {}
                assert(after[i as int].1 == layer);
                assert forall|k: int| 0 <= k < i + 1 implies layer_grads((#[trigger] after[k]).1)
                    == grads@.subrange(
                    flat(before, k).len() as int,
                    flat(before, k + 1).len() as int,
                ) by {
                    if k < i {
                        assert(after[k] == now[k]);
                    }
                }
            }
            offset = end;
            i += 1;
        }
        Ok(())
    }
}

proof fn lemma_flat_of_taken(
    a: Seq<(String, LoraLayer)>,
    b: Seq<(String, LoraLayer)>,
    grads: Seq<u32>,
    m: int,
    n: int,
)
    requires
        grads_taken(a, b, grads, n),
        0 <= m <= n <= a.len(),
        flat(a, n).len() <= grads.len(),
    ensures
        flat(b, m) == grads.take(flat(a, m).len() as int),
    decreases m,
{
    lemma_flat_grows(a, m, n);
    if m > 0 {
        lemma_flat_of_taken(a, b, grads, m - 1, n);
        lemma_flat_grows(a, m - 1, m);
        assert(layer_grads(b[m - 1].1) == grads.subrange(
            flat(a, m - 1).len() as int,
            flat(a, m).len() as int,
        ));
        assert(flat(b, m) =~= grads.take(flat(a, m).len() as int));
    } else {
        assert(flat(b, m) =~= grads.take(0));
    }
}

proof fn lemma_short_at(layers: Seq<(String, LoraLayer)>, len: int, k: int)
    requires
        0 <= k <= layers.len(),
        flat(layers, k).len() <= len,
    ensures
        short_at(layers, len, k) is None <==> flat(layers, layers.len() as int).len() <= len,
        short_at(layers, len, k) matches Some(i) ==> k <= i < layers.len(),
    decreases layers.len() - k,
{
    if k < layers.len() {
        if flat(layers, k + 1).len() > len {
            lemma_flat_grows(layers, k + 1, layers.len() as int);
        } else {
            lemma_short_at(layers, len, k + 1);
        }
    }
}

proof fn lemma_flat_keeps_length(
    a: Seq<(String, LoraLayer)>,
    b: Seq<(String, LoraLayer)>,
    grads: Seq<u32>,
    m: int,
    n: int,
)
    requires
        grads_taken(a, b, grads, n),
        0 <= m <= a.len(),
    ensures
        flat(b, m).len() == flat(a, m).len(),
    decreases m,
{
    if m > 0 {
        lemma_flat_keeps_length(a, b, grads, m - 1, n);
        assert(b[m - 1].0@ == a[m - 1].0@);
    }
}

/// A row of gradients is refused exactly if it is shorter than those of all layers together. Of
/// one that is taken, the layers give back as much as they hold, whatever follows in the row.
pub proof fn law_flat_gradients_are_given_back(
    a: Seq<(String, LoraLayer)>,
    b: Seq<(String, LoraLayer)>,
    grads: Seq<u32>,
)
    ensures
        short_at(a, grads.len() as int, 0) is Some <==> grads.len() < flat(
            a,
            a.len() as int,
        ).len(),
        short_at(a, grads.len() as int, 0) is None && grads_taken(a, b, grads, a.len() as int)
            ==> flat(b, b.len() as int) == grads.take(flat(a, a.len() as int).len() as int),
{
    lemma_short_at(a, grads.len() as int, 0);
    if short_at(a, grads.len() as int, 0) is None && grads_taken(a, b, grads, a.len() as int) {
        lemma_flat_of_taken(a, b, grads, a.len() as int, a.len() as int);
    }
}

/// Taking gradients from a row, all of them or those of the first layers, changes nothing else:
/// names, weights, moments, steps and all lengths stay.
pub proof fn law_taking_gradients_keeps_the_rest(
    a: Seq<(String, LoraLayer)>,
    b: Seq<(String, LoraLayer)>,
    grads: Seq<u32>,
    n: int,
    i: int,
)
    requires
        grads_taken(a, b, grads, n),
        0 <= i < a.len(),
    ensures
        b.len() == a.len(),
        b[i].0@ == a[i].0@,
        same_weights(b[i].1, a[i].1),
        same_moments(b[i].1, a[i].1),
        b[i].1.grad_a@.len() == a[i].1.grad_a@.len(),
        b[i].1.grad_b@.len() == a[i].1.grad_b@.len(),
        flat(b, b.len() as int).len() == flat(a, a.len() as int).len(),
{
    lemma_flat_keeps_length(a, b, grads, a.len() as int, n);
}

} // verus!
