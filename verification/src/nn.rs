//! The layer/network engine: forward propagation, backpropagation,
//! mini-batch gradient accumulation, parameter updates and the adaptive
//! learning-rate policy, together with the name registries that resolve
//! configuration strings to activation and cost selectors.
//!
//! As in `matrix`, the scalar arithmetic is passed in as function values: a
//! network owns a `ScalarOps` bundle, resolved once at construction, and
//! every contract pins the numeric state of the network through the
//! `bin_val` / `un_val` / `tri_val` images of those functions.

use vstd::prelude::*;

use vstd::arithmetic::div_mod::lemma_fundamental_div_mod_converse;

use crate::matrix::{
    Matrix, MatModel, lemma_dot_of_column, spec_dot, spec_dot_vec, spec_trans_dot, spec_zip_with,
    spec_zip_vec, spec_accumulate_outer,
};
use crate::scalar::{
    bin_callable, bin_ok, bin_val, lemma_bin_val, tri_callable, tri_ok, tri_val, lemma_tri_val,
    un_ok, un_val, lemma_un_val,
};

verus! {

/// The closed set of activation functions the registry can resolve.
#[derive(Clone, Copy, Debug, PartialEq, Eq, Structural)]
pub enum ActivationKind {
    Sigmoid,
    Relu,
    Identity,
}

/// The closed set of cost functions the registry can resolve.
#[derive(Clone, Copy, Debug, PartialEq, Eq, Structural)]
pub enum CostKind {
    Quadratic,
}

/// The whitespace characters that name normalization strips.
pub open spec fn spec_is_space(c: char) -> bool {
    c == ' ' || c == '\t' || c == '\n' || c == '\r' || c == '\u{000B}' || c == '\u{000C}'
}

/// Drop leading whitespace.
pub open spec fn spec_trim_front(s: Seq<char>) -> Seq<char>
    decreases s.len(),
{
    if s.len() > 0 && spec_is_space(s[0]) {
        spec_trim_front(s.drop_first())
    } else {
        s
    }
}

/// Drop trailing whitespace.
pub open spec fn spec_trim_back(s: Seq<char>) -> Seq<char>
    decreases s.len(),
{
    if s.len() > 0 && spec_is_space(s[s.len() - 1]) {
        spec_trim_back(s.drop_last())
    } else {
        s
    }
}

/// Drop surrounding whitespace.
pub open spec fn spec_trim(s: Seq<char>) -> Seq<char> {
    spec_trim_back(spec_trim_front(s))
}

/// Lower-case a single letter of a registry name.
pub open spec fn spec_lower_char(c: char) -> char {
    match c {
        'A' => 'a',
        'B' => 'b',
        'C' => 'c',
        'D' => 'd',
        'E' => 'e',
        'F' => 'f',
        'G' => 'g',
        'H' => 'h',
        'I' => 'i',
        'J' => 'j',
        'K' => 'k',
        'L' => 'l',
        'M' => 'm',
        'N' => 'n',
        'O' => 'o',
        'P' => 'p',
        'Q' => 'q',
        'R' => 'r',
        'S' => 's',
        'T' => 't',
        'U' => 'u',
        'V' => 'v',
        'W' => 'w',
        'X' => 'x',
        'Y' => 'y',
        'Z' => 'z',
        _ => c,
    }
}

/// Lower-case every character.
pub open spec fn spec_to_lower(s: Seq<char>) -> Seq<char> {
    Seq::new(s.len(), |i: int| spec_lower_char(s[i]))
}

/// The normal form a name is matched in: trimmed, then lower-cased.
/// Normalization covers ASCII alone: only ASCII whitespace is stripped and
/// only ASCII letters are lower-cased; any other character must already
/// stand as it does in the registry's keys.
pub open spec fn spec_normalize(s: Seq<char>) -> Seq<char> {
    spec_to_lower(spec_trim(s))
}

/// How an activation name resolves: `sigmoid`, `relu`, the two identity
/// spellings `id` and `identity`; everything else - `default` included -
/// falls back to the rectifier.
pub open spec fn spec_activation_of(s: Seq<char>) -> ActivationKind {
    let t = spec_normalize(s);
    if t == "sigmoid"@ {
        ActivationKind::Sigmoid
    } else if t == "id"@ || t == "identity"@ {
        ActivationKind::Identity
    } else {
        ActivationKind::Relu
    }
}

/// How a cost name resolves: `quadratic`, `default` and every unrecognized
/// name all select the quadratic cost, the only one the registry holds.
pub open spec fn spec_cost_of(s: Seq<char>) -> CostKind {
    CostKind::Quadratic
}

fn is_space(c: char) -> (r: bool)
    ensures
        r == spec_is_space(c),
{
    c == ' ' || c == '\t' || c == '\n' || c == '\r' || c == '\u{000B}' || c == '\u{000C}'
}

fn lower_char(c: char) -> (r: char)
    ensures
        r == spec_lower_char(c),
{
    match c {
        'A' => 'a',
        'B' => 'b',
        'C' => 'c',
        'D' => 'd',
        'E' => 'e',
        'F' => 'f',
        'G' => 'g',
        'H' => 'h',
        'I' => 'i',
        'J' => 'j',
        'K' => 'k',
        'L' => 'l',
        'M' => 'm',
        'N' => 'n',
        'O' => 'o',
        'P' => 'p',
        'Q' => 'q',
        'R' => 'r',
        'S' => 's',
        'T' => 't',
        'U' => 'u',
        'V' => 'v',
        'W' => 'w',
        'X' => 'x',
        'Y' => 'y',
        'Z' => 'z',
        _ => c,
    }
}

/// Bring a configuration name into its matching form: surrounding
/// whitespace stripped and letters lower-cased.
#[verifier::loop_isolation(false)]
fn normalize_name(name: &str) -> (t: Vec<char>)
    ensures
        t@ == spec_normalize(name@),
{
    let n = name.unicode_len();
    let mut cs: Vec<char> = Vec::new();
    let mut i: usize = 0;
    while i < n
        invariant
            i <= n,
            cs@.len() == i,
            forall|k: int| 0 <= k < i ==> cs@[k] == name@[k],
        decreases n - i,
    {
        cs.push(name.get_char(i));
        i += 1;
    }
    proof {
        assert(cs@ =~= name@);
    }
    let len = cs.len();
    let mut start: usize = 0;
    proof {
        assert(cs@.subrange(0, len as int) =~= cs@);
    }
    while start < len && is_space(cs[start])
        invariant
            start <= len,
            spec_trim_front(name@) == spec_trim_front(cs@.subrange(start as int, len as int)),
        decreases len - start,
    {
        proof {
            assert(cs@.subrange(start as int, len as int).drop_first() =~= cs@.subrange(
                start as int + 1,
                len as int,
            ));
        }
        start += 1;
    }
    let mut end: usize = len;
    while end > start && is_space(cs[end - 1])
        invariant
            start <= end <= len,
            spec_trim(name@) == spec_trim_back(cs@.subrange(start as int, end as int)),
        decreases end,
    {
        proof {
            assert(cs@.subrange(start as int, end as int).drop_last() =~= cs@.subrange(
                start as int,
                end as int - 1,
            ));
        }
        end -= 1;
    }
    let mut out: Vec<char> = Vec::new();
    let mut p: usize = start;
    while p < end
        invariant
            start <= p <= end,
            out@.len() == p - start,
            forall|k: int| 0 <= k < out@.len() ==> out@[k] == spec_lower_char(cs@[start + k]),
        decreases end - p,
    {
        let c = lower_char(cs[p]);
        out.push(c);
        p += 1;
    }
    proof {
        assert(out@ =~= spec_normalize(name@));
    }
    out
}

/// Compare a character vector against a string, character for character.
#[verifier::loop_isolation(false)]
fn chars_eq_str(v: &Vec<char>, s: &str) -> (r: bool)
    ensures
        r == (v@ == s@),
{
    let n = s.unicode_len();
    if v.len() != n {
        return false;
    }
    let mut i: usize = 0;
    while i < n
        invariant
            i <= n,
            forall|k: int| 0 <= k < i ==> v@[k] == s@[k],
        decreases n - i,
    {
        let c = s.get_char(i);
        if v[i] != c {
            return false;
        }
        i += 1;
    }
    proof {
        assert(v@ =~= s@);
    }
    true
}

/// The scalar arithmetic a network runs on, resolved once at construction
/// and owned by the network: the four field operations, the activation
/// functions and their derivatives (dispatched by `ActivationKind`), the
/// pointwise cost term and cost derivative (dispatched by `CostKind`), the
/// order test the learning-rate policy uses, the embedding of sample counts
/// into the scalar type, and the scalar zero.
#[derive(Clone, Copy)]
pub struct ScalarOps<T, FAdd, FSub, FMul, FDiv, FAct, FActD, FCostT, FCostD, FGt, FCnt> {
    pub addf: FAdd,
    pub subf: FSub,
    pub mulf: FMul,
    pub divf: FDiv,
    pub actf: FAct,
    pub actdf: FActD,
    pub costtf: FCostT,
    pub costdf: FCostD,
    pub gtf: FGt,
    pub cntf: FCnt,
    pub zero: T,
}

/// Every function in the bundle behaves as a total mathematical function:
/// callable everywhere, at most one result per input. This is what lets the
/// network's contracts pin its numeric state.
#[verifier::opaque]
pub open spec fn ops_ok<
    T,
    FAdd: Fn(T, T) -> T,
    FSub: Fn(T, T) -> T,
    FMul: Fn(T, T) -> T,
    FDiv: Fn(T, T) -> T,
    FAct: Fn(ActivationKind, T) -> T,
    FActD: Fn(ActivationKind, T) -> T,
    FCostT: Fn(CostKind, T, T) -> T,
    FCostD: Fn(CostKind, T, T) -> T,
    FGt: Fn(T, T) -> bool,
    FCnt: Fn(usize) -> T,
>(ops: ScalarOps<T, FAdd, FSub, FMul, FDiv, FAct, FActD, FCostT, FCostD, FGt, FCnt>) -> bool {
    &&& bin_ok(ops.addf)
    &&& bin_ok(ops.subf)
    &&& bin_ok(ops.mulf)
    &&& bin_ok(ops.divf)
    &&& bin_ok(ops.actf)
    &&& bin_ok(ops.actdf)
    &&& tri_ok(ops.costtf)
    &&& tri_ok(ops.costdf)
    &&& bin_ok(ops.gtf)
    &&& un_ok(ops.cntf)
}

/// One layer: its weight matrix (`len x inputs`), bias column, the
/// pre-/post-activation caches the passes write, its resolved activation
/// selector, its neuron count and its gradient accumulators.
///
/// After a backward step the `post_activation` buffer is deliberately
/// repurposed to hold the layer's error signal ("delta"), exactly as the
/// training sweep expects; the contracts of the delta operations state the
/// buffer's new contents explicitly.
pub struct Layer<T> {
    pub w_matrix: Matrix<T>,
    pub b_matrix: Matrix<T>,
    pub pre_activation: Matrix<T>,
    pub post_activation: Matrix<T>,
    pub activation: ActivationKind,
    pub len: usize,
    pub grad_w: Matrix<T>,
    pub grad_b: Matrix<T>,
}

impl<T> Layer<T> {
    /// Shape discipline: one row per neuron everywhere, single-column
    /// buffers, gradient accumulators shaped like their parameters.
    pub open spec fn wf(self) -> bool {
        &&& self.w_matrix.wf()
        &&& self.b_matrix.wf()
        &&& self.pre_activation.wf()
        &&& self.post_activation.wf()
        &&& self.grad_w.wf()
        &&& self.grad_b.wf()
        &&& self.len != 0
        &&& self.w_matrix.rows == self.len
        &&& self.b_matrix.rows == self.len
        &&& self.b_matrix.cols == 1
        &&& self.pre_activation.rows == self.len
        &&& self.pre_activation.cols == 1
        &&& self.post_activation.rows == self.len
        &&& self.post_activation.cols == 1
        &&& self.grad_w.rows == self.w_matrix.rows
        &&& self.grad_w.cols == self.w_matrix.cols
        &&& self.grad_b.rows == self.len
        &&& self.grad_b.cols == 1
    }

    /// The learned parameters and the selectors are untouched.
    pub open spec fn same_params(self, other: Layer<T>) -> bool {
        &&& self.w_matrix == other.w_matrix
        &&& self.b_matrix == other.b_matrix
        &&& self.activation == other.activation
        &&& self.len == other.len
    }

    /// The gradient accumulators are untouched.
    pub open spec fn same_grads(self, other: Layer<T>) -> bool {
        self.grad_w == other.grad_w && self.grad_b == other.grad_b
    }

    /// The forward/backward caches are untouched.
    pub open spec fn same_caches(self, other: Layer<T>) -> bool {
        self.pre_activation == other.pre_activation && self.post_activation
            == other.post_activation
    }
}

/// `a` mapped cell by cell through the activation selected by `kind`.
pub open spec fn spec_activate<T, FAct: Fn(ActivationKind, T) -> T>(
    actf: FAct,
    kind: ActivationKind,
    a: MatModel<T>,
) -> MatModel<T> {
    MatModel {
        rows: a.rows,
        cols: a.cols,
        vals: Seq::new(a.vals.len(), |n: int| bin_val(actf, kind, a.vals[n])),
    }
}

/// `a` combined cell by cell with `target` through the cost derivative
/// selected by `kind`, the cell first, the expected value second.
pub open spec fn spec_cost_derive<T, FCostD: Fn(CostKind, T, T) -> T>(
    costdf: FCostD,
    kind: CostKind,
    a: MatModel<T>,
    target: Seq<T>,
) -> MatModel<T> {
    MatModel {
        rows: a.rows,
        cols: a.cols,
        vals: Seq::new(a.vals.len(), |n: int| tri_val(costdf, kind, a.vals[n], target[n])),
    }
}

/// One parameter update step: each parameter loses its accumulated gradient
/// scaled by the learning rate and divided by the mini-batch size.
pub open spec fn spec_param_update<T, FSub: Fn(T, T) -> T, FMul: Fn(T, T) -> T, FDiv: Fn(T, T) -> T>(
    subf: FSub,
    mulf: FMul,
    divf: FDiv,
    p: MatModel<T>,
    g: MatModel<T>,
    learning_rate: T,
    mean_value: T,
) -> MatModel<T> {
    MatModel {
        rows: p.rows,
        cols: p.cols,
        vals: Seq::new(
            p.vals.len(),
            |n: int| bin_val(
                subf,
                p.vals[n],
                bin_val(divf, bin_val(mulf, g.vals[n], learning_rate), mean_value),
            ),
        ),
    }
}

impl<T: Copy> Layer<T> {
    /// One forward step from the raw input vector:
    /// `pre = W x input + b`, then `post = activation(pre)` cell by cell.
    pub fn input_pass<
        FAdd: Fn(T, T) -> T + Copy,
        FMul: Fn(T, T) -> T + Copy,
        FAct: Fn(ActivationKind, T) -> T + Copy,
    >(&mut self, input: &Vec<T>, addf: FAdd, mulf: FMul, actf: FAct, zero: T)
        requires
            old(self).wf(),
            input@.len() == old(self).w_matrix.cols,
            old(self).w_matrix.cols != 0,
            bin_ok(addf),
            bin_ok(mulf),
            bin_ok(actf),
        ensures
            final(self).wf(),
            final(self).same_params(*old(self)),
            final(self).same_grads(*old(self)),
            final(self).pre_activation.m() == spec_zip_with(
                addf,
                spec_dot_vec(old(self).w_matrix.m(), input@, addf, mulf, zero),
                old(self).b_matrix.m(),
            ),
            final(self).post_activation.m() == spec_activate(
                actf,
                old(self).activation,
                final(self).pre_activation.m(),
            ),
    {
        self.w_matrix.dot_vec(&mut self.pre_activation, input, addf, mulf, zero);
        self.pre_activation.add_mut(&self.b_matrix, addf);
        self.apply_activation(actf);
    }

    /// One forward step from the previous layer's retained output:
    /// `pre = W x input + b`, then `post = activation(pre)` cell by cell.
    pub fn layer_pass<
        FAdd: Fn(T, T) -> T + Copy,
        FMul: Fn(T, T) -> T + Copy,
        FAct: Fn(ActivationKind, T) -> T + Copy,
    >(&mut self, input: &Matrix<T>, addf: FAdd, mulf: FMul, actf: FAct, zero: T)
        requires
            old(self).wf(),
            input.wf(),
            input.rows == old(self).w_matrix.cols,
            input.cols == 1,
            old(self).w_matrix.cols != 0,
            bin_ok(addf),
            bin_ok(mulf),
            bin_ok(actf),
        ensures
            final(self).wf(),
            final(self).same_params(*old(self)),
            final(self).same_grads(*old(self)),
            final(self).pre_activation.m() == spec_zip_with(
                addf,
                spec_dot(old(self).w_matrix.m(), input.m(), addf, mulf, zero),
                old(self).b_matrix.m(),
            ),
            final(self).post_activation.m() == spec_activate(
                actf,
                old(self).activation,
                final(self).pre_activation.m(),
            ),
    {
        self.w_matrix.dot(&mut self.pre_activation, input, addf, mulf, zero);
        self.pre_activation.add_mut(&self.b_matrix, addf);
        self.apply_activation(actf);
    }

    /// Overwrite `post` with the image of `pre` under the layer's
    /// activation.
    fn apply_activation<FAct: Fn(ActivationKind, T) -> T + Copy>(&mut self, actf: FAct)
        requires
            old(self).wf(),
            bin_ok(actf),
        ensures
            final(self).wf(),
            final(self).same_params(*old(self)),
            final(self).same_grads(*old(self)),
            final(self).pre_activation == old(self).pre_activation,
            final(self).post_activation.m() == spec_activate(
                actf,
                old(self).activation,
                old(self).pre_activation.m(),
            ),
    {
        let kind = self.activation;
        let g = |x: T| -> (r: T)
            requires
                bin_callable(actf),
            ensures
                call_ensures(actf, (kind, x), r),
            { actf(kind, x) };
        proof {
            assert forall|x: T| call_requires(g, (x,)) by {}
            assert forall|x: T, r1: T, r2: T|
                call_ensures(g, (x,), r1) && call_ensures(g, (x,), r2) implies r1 == r2 by {
                assert(call_ensures(actf, (kind, x), r1));
                assert(call_ensures(actf, (kind, x), r2));
            }
            assert(un_ok(g));
        }
        self.pre_activation.apply_to(&mut self.post_activation, g);
        proof {
            let target = spec_activate(actf, kind, self.pre_activation.m());
            assert forall|k: int| 0 <= k < self.post_activation.values@.len()
                implies self.post_activation.values@[k] == target.vals[k] by {
                lemma_bin_val(
                    actf,
                    kind,
                    self.pre_activation.values@[k],
                    self.post_activation.values@[k],
                );
            }
            assert(self.post_activation.m() =~= target);
        }
    }

    /// Overwrite `pre` in place with the image of itself under the layer's
    /// activation derivative.
    fn apply_activation_deriv<FActD: Fn(ActivationKind, T) -> T + Copy>(&mut self, actdf: FActD)
        requires
            old(self).wf(),
            bin_ok(actdf),
        ensures
            final(self).wf(),
            final(self).same_params(*old(self)),
            final(self).same_grads(*old(self)),
            final(self).post_activation == old(self).post_activation,
            final(self).pre_activation.m() == spec_activate(
                actdf,
                old(self).activation,
                old(self).pre_activation.m(),
            ),
    {
        let kind = self.activation;
        let g = |x: T| -> (r: T)
            requires
                bin_callable(actdf),
            ensures
                call_ensures(actdf, (kind, x), r),
            { actdf(kind, x) };
        proof {
            assert forall|x: T| call_requires(g, (x,)) by {}
            assert forall|x: T, r1: T, r2: T|
                call_ensures(g, (x,), r1) && call_ensures(g, (x,), r2) implies r1 == r2 by {
                assert(call_ensures(actdf, (kind, x), r1));
                assert(call_ensures(actdf, (kind, x), r2));
            }
            assert(un_ok(g));
        }
        self.pre_activation.apply_mut(g);
        proof {
            let target = spec_activate(actdf, kind, old(self).pre_activation.m());
            assert forall|k: int| 0 <= k < self.pre_activation.values@.len()
                implies self.pre_activation.values@[k] == target.vals[k] by {
                lemma_bin_val(
                    actdf,
                    kind,
                    old(self).pre_activation.values@[k],
                    self.pre_activation.values@[k],
                );
            }
            assert(self.pre_activation.m() =~= target);
        }
    }

    /// The backward step of the output layer. The `post` buffer - the
    /// forward output until now - is overwritten in three moves: fold the
    /// cost derivative against the expected `output` into it, overwrite
    /// `pre` with the activation derivative of itself, then multiply the
    /// two cell by cell. `post` then holds the layer's error signal.
    pub fn compute_delta_last_layer<
        FCostD: Fn(CostKind, T, T) -> T + Copy,
        FActD: Fn(ActivationKind, T) -> T + Copy,
        FMul: Fn(T, T) -> T + Copy,
    >(&mut self, output: &Vec<T>, cost: CostKind, costdf: FCostD, actdf: FActD, mulf: FMul)
        requires
            old(self).wf(),
            output@.len() == old(self).post_activation.values@.len(),
            tri_ok(costdf),
            bin_ok(actdf),
            bin_ok(mulf),
        ensures
            final(self).wf(),
            final(self).same_params(*old(self)),
            final(self).same_grads(*old(self)),
            final(self).pre_activation.m() == spec_activate(
                actdf,
                old(self).activation,
                old(self).pre_activation.m(),
            ),
            final(self).post_activation.m() == spec_zip_with(
                mulf,
                spec_cost_derive(costdf, cost, old(self).post_activation.m(), output@),
                final(self).pre_activation.m(),
            ),
    {
        let g = |a: T, b: T| -> (r: T)
            requires
                tri_callable(costdf),
            ensures
                call_ensures(costdf, (cost, a, b), r),
            { costdf(cost, a, b) };
        proof {
            assert forall|a: T, b: T| call_requires(g, (a, b)) by {}
            assert forall|a: T, b: T, r1: T, r2: T|
                call_ensures(g, (a, b), r1) && call_ensures(g, (a, b), r2) implies r1 == r2 by {
                assert(call_ensures(costdf, (cost, a, b), r1));
                assert(call_ensures(costdf, (cost, a, b), r2));
            }
            assert(bin_ok(g));
        }
        self.post_activation.cost_derivative_mut(output, g);
        proof {
            let target = spec_cost_derive(costdf, cost, old(self).post_activation.m(), output@);
            assert forall|k: int| 0 <= k < self.post_activation.values@.len()
                implies self.post_activation.values@[k] == target.vals[k] by {
                lemma_tri_val(
                    costdf,
                    cost,
                    old(self).post_activation.values@[k],
                    output@[k],
                    self.post_activation.values@[k],
                );
            }
            assert(self.post_activation.m() =~= target);
        }
        self.apply_activation_deriv(actdf);
        self.post_activation.multiply_by_mut(&self.pre_activation, mulf);
    }

    /// The backward step of a hidden layer: `post` becomes
    /// `(transpose(W_next) x delta_next)`, `pre` becomes the activation
    /// derivative of itself, and their Hadamard product - the layer's error
    /// signal - lands in `post`. The caller hands in snapshots of the
    /// following layer's weights and error signal.
    pub fn compute_delta<
        FAdd: Fn(T, T) -> T + Copy,
        FMul: Fn(T, T) -> T + Copy,
        FActD: Fn(ActivationKind, T) -> T + Copy,
    >(
        &mut self,
        following_w: &Matrix<T>,
        following_delta: &Matrix<T>,
        addf: FAdd,
        mulf: FMul,
        actdf: FActD,
        zero: T,
    )
        requires
            old(self).wf(),
            following_w.wf(),
            following_delta.wf(),
            following_w.cols == old(self).len,
            following_w.rows == following_delta.rows,
            following_w.rows != 0,
            following_delta.cols == 1,
            bin_ok(addf),
            bin_ok(mulf),
            bin_ok(actdf),
        ensures
            final(self).wf(),
            final(self).same_params(*old(self)),
            final(self).same_grads(*old(self)),
            final(self).pre_activation.m() == spec_activate(
                actdf,
                old(self).activation,
                old(self).pre_activation.m(),
            ),
            final(self).post_activation.m() == spec_zip_with(
                mulf,
                spec_trans_dot(following_w.m(), following_delta.m(), addf, mulf, zero),
                final(self).pre_activation.m(),
            ),
    {
        following_w.trans_dot(&mut self.post_activation, following_delta, addf, mulf, zero);
        self.apply_activation_deriv(actdf);
        self.post_activation.multiply_by_mut(&self.pre_activation, mulf);
    }

    /// Accumulate this layer's weight gradient: the outer product of its
    /// error signal (held in `post`) and the predecessor's activations.
    pub fn compute_w_grad<FAdd: Fn(T, T) -> T + Copy, FMul: Fn(T, T) -> T + Copy>(
        &mut self,
        prev_layer_values: &Vec<T>,
        addf: FAdd,
        mulf: FMul,
    )
        requires
            old(self).wf(),
            prev_layer_values@.len() == old(self).grad_w.cols,
            prev_layer_values@.len() != 0,
            bin_ok(addf),
            bin_ok(mulf),
        ensures
            final(self).wf(),
            final(self).same_params(*old(self)),
            final(self).same_caches(*old(self)),
            final(self).grad_b == old(self).grad_b,
            final(self).grad_w.m() == spec_accumulate_outer(
                old(self).grad_w.m(),
                prev_layer_values@,
                old(self).post_activation.values@,
                addf,
                mulf,
            ),
    {
        self.grad_w.matrix_weight_compute(
            prev_layer_values,
            &self.post_activation.values,
            addf,
            mulf,
        );
    }

    /// Accumulate this layer's bias gradient: add its error signal (held in
    /// `post`) onto the accumulator.
    pub fn compute_b_grad<FAdd: Fn(T, T) -> T + Copy>(&mut self, addf: FAdd)
        requires
            old(self).wf(),
            bin_ok(addf),
        ensures
            final(self).wf(),
            final(self).same_params(*old(self)),
            final(self).same_caches(*old(self)),
            final(self).grad_w == old(self).grad_w,
            final(self).grad_b.m() == spec_zip_with(
                addf,
                old(self).grad_b.m(),
                old(self).post_activation.m(),
            ),
    {
        self.grad_b.add_mut(&self.post_activation, addf);
    }

    /// Consume the accumulated gradients: every weight and bias loses its
    /// gradient scaled by the learning rate and divided by `mean_value`,
    /// the mini-batch size embedded into the scalar type.
    #[verifier::loop_isolation(false)]
    pub fn update_parameters<
        FSub: Fn(T, T) -> T + Copy,
        FMul: Fn(T, T) -> T + Copy,
        FDiv: Fn(T, T) -> T + Copy,
    >(&mut self, mean_value: T, learning_rate: T, subf: FSub, mulf: FMul, divf: FDiv)
        requires
            old(self).wf(),
            bin_ok(subf),
            bin_ok(mulf),
            bin_ok(divf),
        ensures
            final(self).wf(),
            final(self).same_caches(*old(self)),
            final(self).same_grads(*old(self)),
            final(self).activation == old(self).activation,
            final(self).len == old(self).len,
            final(self).b_matrix.m() == spec_param_update(
                subf,
                mulf,
                divf,
                old(self).b_matrix.m(),
                old(self).grad_b.m(),
                learning_rate,
                mean_value,
            ),
            final(self).w_matrix.m() == spec_param_update(
                subf,
                mulf,
                divf,
                old(self).w_matrix.m(),
                old(self).grad_w.m(),
                learning_rate,
                mean_value,
            ),
    {
        let ghost btarget = spec_param_update(
            subf,
            mulf,
            divf,
            old(self).b_matrix.m(),
            old(self).grad_b.m(),
            learning_rate,
            mean_value,
        );
        let btotal = self.b_matrix.values.len();
        let mut n: usize = 0;
        while n < btotal
            invariant
                n <= btotal,
                self.w_matrix == old(self).w_matrix,
                self.grad_w == old(self).grad_w,
                self.grad_b == old(self).grad_b,
                self.pre_activation == old(self).pre_activation,
                self.post_activation == old(self).post_activation,
                self.activation == old(self).activation,
                self.len == old(self).len,
                self.b_matrix.rows == old(self).b_matrix.rows,
                self.b_matrix.cols == old(self).b_matrix.cols,
                self.b_matrix.values@.len() == old(self).b_matrix.values@.len(),
                forall|k: int| 0 <= k < n ==> self.b_matrix.values@[k] == btarget.vals[k],
                forall|k: int|
                    n <= k < self.b_matrix.values@.len() ==> self.b_matrix.values@[k] == old(
                        self,
                    ).b_matrix.values@[k],
            decreases btotal - n,
        {
            let grad = self.grad_b.values[n];
            let scaled = mulf(grad, learning_rate);
            let step = divf(scaled, mean_value);
            let v = subf(self.b_matrix.values[n], step);
            proof {
                lemma_bin_val(mulf, grad, learning_rate, scaled);
                lemma_bin_val(divf, scaled, mean_value, step);
                lemma_bin_val(subf, self.b_matrix.values@[n as int], step, v);
            }
            self.b_matrix.values[n] = v;
            n += 1;
        }
        proof {
            assert(self.b_matrix.m() =~= btarget);
        }
        let ghost wtarget = spec_param_update(
            subf,
            mulf,
            divf,
            old(self).w_matrix.m(),
            old(self).grad_w.m(),
            learning_rate,
            mean_value,
        );
        let wtotal = self.w_matrix.values.len();
        let mut n2: usize = 0;
        while n2 < wtotal
            invariant
                n2 <= wtotal,
                self.b_matrix.m() == btarget,
                self.b_matrix.wf(),
                self.grad_w == old(self).grad_w,
                self.grad_b == old(self).grad_b,
                self.pre_activation == old(self).pre_activation,
                self.post_activation == old(self).post_activation,
                self.activation == old(self).activation,
                self.len == old(self).len,
                self.b_matrix.rows == old(self).b_matrix.rows,
                self.b_matrix.cols == old(self).b_matrix.cols,
                self.w_matrix.rows == old(self).w_matrix.rows,
                self.w_matrix.cols == old(self).w_matrix.cols,
                self.w_matrix.values@.len() == old(self).w_matrix.values@.len(),
                forall|k: int| 0 <= k < n2 ==> self.w_matrix.values@[k] == wtarget.vals[k],
                forall|k: int|
                    n2 <= k < self.w_matrix.values@.len() ==> self.w_matrix.values@[k] == old(
                        self,
                    ).w_matrix.values@[k],
            decreases wtotal - n2,
        {
            let grad = self.grad_w.values[n2];
            let scaled = mulf(grad, learning_rate);
            let step = divf(scaled, mean_value);
            let v = subf(self.w_matrix.values[n2], step);
            proof {
                lemma_bin_val(mulf, grad, learning_rate, scaled);
                lemma_bin_val(divf, scaled, mean_value, step);
                lemma_bin_val(subf, self.w_matrix.values@[n2 as int], step, v);
            }
            self.w_matrix.values[n2] = v;
            n2 += 1;
        }
        proof {
            assert(self.w_matrix.m() =~= wtarget);
        }
    }
}

/// The mathematical image of a layer: the models of its six matrices plus
/// its selectors.
#[verifier::ext_equal]
pub ghost struct LayerState<T> {
    pub w: MatModel<T>,
    pub b: MatModel<T>,
    pub pre: MatModel<T>,
    pub post: MatModel<T>,
    pub gw: MatModel<T>,
    pub gb: MatModel<T>,
    pub kind: ActivationKind,
    pub len: nat,
}

impl<T> Layer<T> {
    /// The mathematical image of this layer.
    pub open spec fn st(self) -> LayerState<T> {
        LayerState {
            w: self.w_matrix.m(),
            b: self.b_matrix.m(),
            pre: self.pre_activation.m(),
            post: self.post_activation.m(),
            gw: self.grad_w.m(),
            gb: self.grad_b.m(),
            kind: self.activation,
            len: self.len as nat,
        }
    }
}

/// The mathematical image of a whole layer stack.
pub open spec fn net_states<T>(layers: Seq<Layer<T>>) -> Seq<LayerState<T>> {
    Seq::new(layers.len(), |i: int| layers[i].st())
}

/// One forward step of a single layer from the given predecessor values:
/// the new `(pre, post)` pair.
pub open spec fn spec_forward_pair<
    T,
    FAdd: Fn(T, T) -> T,
    FMul: Fn(T, T) -> T,
    FAct: Fn(ActivationKind, T) -> T,
>(
    addf: FAdd,
    mulf: FMul,
    actf: FAct,
    zero: T,
    st: LayerState<T>,
    input: Seq<T>,
) -> (MatModel<T>, MatModel<T>) {
    let pre = spec_zip_with(addf, spec_dot_vec(st.w, input, addf, mulf, zero), st.b);
    let post = spec_activate(actf, st.kind, pre);
    (pre, post)
}

/// The `(pre, post)` pair of layer `i` after a full forward pass of the
/// stack on `input`: layer `0` reads the raw input, every later layer reads
/// its predecessor's fresh output. Only the layers' parameters and
/// activation selectors enter, never their old caches.
#[verifier::opaque]
pub open spec fn spec_forward_upto<
    T,
    FAdd: Fn(T, T) -> T,
    FMul: Fn(T, T) -> T,
    FAct: Fn(ActivationKind, T) -> T,
>(
    addf: FAdd,
    mulf: FMul,
    actf: FAct,
    zero: T,
    states: Seq<LayerState<T>>,
    input: Seq<T>,
    i: int,
) -> (MatModel<T>, MatModel<T>)
    decreases i,
{
    let prev = if i <= 0 {
        input
    } else {
        spec_forward_upto(addf, mulf, actf, zero, states, input, i - 1).1.vals
    };
    spec_forward_pair(addf, mulf, actf, zero, states[i], prev)
}

/// The whole stack after a forward pass on `input`: every layer keeps its
/// parameters and gradients and gets the fresh caches.
#[verifier::opaque]
pub open spec fn spec_forward<
    T,
    FAdd: Fn(T, T) -> T,
    FMul: Fn(T, T) -> T,
    FAct: Fn(ActivationKind, T) -> T,
>(
    addf: FAdd,
    mulf: FMul,
    actf: FAct,
    zero: T,
    states: Seq<LayerState<T>>,
    input: Seq<T>,
) -> Seq<LayerState<T>> {
    Seq::new(
        states.len(),
        |i: int| LayerState {
            pre: spec_forward_upto(addf, mulf, actf, zero, states, input, i).0,
            post: spec_forward_upto(addf, mulf, actf, zero, states, input, i).1,
            ..states[i]
        },
    )
}

/// What a forward pass leaves in layer `i`: parameters and gradients kept,
/// `pre` the affine image of the predecessor values, `post` its activation.
pub proof fn lemma_spec_forward_at<
    T,
    FAdd: Fn(T, T) -> T,
    FMul: Fn(T, T) -> T,
    FAct: Fn(ActivationKind, T) -> T,
>(addf: FAdd, mulf: FMul, actf: FAct, zero: T, states: Seq<LayerState<T>>, input: Seq<T>, i: int)
    requires
        0 <= i < states.len(),
    ensures
        ({
            let f = spec_forward(addf, mulf, actf, zero, states, input);
            let prev = if i == 0 {
                input
            } else {
                f[i - 1].post.vals
            };
            &&& f.len() == states.len()
            &&& f[i].w == states[i].w
            &&& f[i].b == states[i].b
            &&& f[i].gw == states[i].gw
            &&& f[i].gb == states[i].gb
            &&& f[i].kind == states[i].kind
            &&& f[i].len == states[i].len
            &&& f[i].pre == spec_zip_with(
                addf,
                spec_dot_vec(states[i].w, prev, addf, mulf, zero),
                states[i].b,
            )
            &&& f[i].post == spec_activate(actf, states[i].kind, f[i].pre)
            &&& f[i].pre == spec_forward_upto(addf, mulf, actf, zero, states, input, i).0
            &&& f[i].post == spec_forward_upto(addf, mulf, actf, zero, states, input, i).1
        }),
{
    reveal(spec_forward);
    reveal_with_fuel(spec_forward_upto, 2);
}

/// A forward pass wipes out whatever an earlier forward pass left in the
/// caches: passes read only the parameters, so the later pass wins.
pub proof fn lemma_forward_absorb<
    T,
    FAdd: Fn(T, T) -> T,
    FMul: Fn(T, T) -> T,
    FAct: Fn(ActivationKind, T) -> T,
>(addf: FAdd, mulf: FMul, actf: FAct, zero: T, states: Seq<LayerState<T>>, x: Seq<T>, y: Seq<T>)
    ensures
        spec_forward(
            addf,
            mulf,
            actf,
            zero,
            spec_forward(addf, mulf, actf, zero, states, x),
            y,
        ) == spec_forward(addf, mulf, actf, zero, states, y),
{
    reveal(spec_forward);
    let fx = spec_forward(addf, mulf, actf, zero, states, x);
    let lhs = spec_forward(addf, mulf, actf, zero, fx, y);
    let rhs = spec_forward(addf, mulf, actf, zero, states, y);
    assert forall|i: int| 0 <= i < states.len() implies lhs[i] == rhs[i] by {
        lemma_forward_params_only(addf, mulf, actf, zero, states, fx, y, i);
    }
    assert(lhs =~= rhs);
}

/// Law: forward propagation reads only the layers' weights, biases and
/// activation selectors. Two stacks that agree on those produce identical
/// pre- and post-activation states for the same input, whatever their
/// caches and gradients hold.
pub proof fn lemma_forward_params_only<
    T,
    FAdd: Fn(T, T) -> T,
    FMul: Fn(T, T) -> T,
    FAct: Fn(ActivationKind, T) -> T,
>(
    addf: FAdd,
    mulf: FMul,
    actf: FAct,
    zero: T,
    s1: Seq<LayerState<T>>,
    s2: Seq<LayerState<T>>,
    input: Seq<T>,
    i: int,
)
    requires
        0 <= i < s1.len(),
        s2.len() == s1.len(),
        forall|k: int|
            0 <= k < s1.len() ==> (#[trigger] s2[k]).w == s1[k].w && s2[k].b == s1[k].b
                && s2[k].kind == s1[k].kind,
    ensures
        spec_forward_upto(addf, mulf, actf, zero, s1, input, i) == spec_forward_upto(
            addf,
            mulf,
            actf,
            zero,
            s2,
            input,
            i,
        ),
    decreases i,
{
    reveal(spec_forward_upto);
    if i > 0 {
        lemma_forward_params_only(addf, mulf, actf, zero, s1, s2, input, i - 1);
    }
}

/// Law: forward propagation is deterministic. Running the pass a second
/// time, from the state the first pass left behind, yields exactly the same
/// caches: the output is a function of the parameters and the input alone.
pub proof fn lemma_forward_deterministic<
    T,
    FAdd: Fn(T, T) -> T,
    FMul: Fn(T, T) -> T,
    FAct: Fn(ActivationKind, T) -> T,
>(addf: FAdd, mulf: FMul, actf: FAct, zero: T, states: Seq<LayerState<T>>, input: Seq<T>)
    ensures
        spec_forward(
            addf,
            mulf,
            actf,
            zero,
            spec_forward(addf, mulf, actf, zero, states, input),
            input,
        ) == spec_forward(addf, mulf, actf, zero, states, input),
{
    reveal(spec_forward);
    let once = spec_forward(addf, mulf, actf, zero, states, input);
    let twice = spec_forward(addf, mulf, actf, zero, once, input);
    assert forall|i: int| 0 <= i < states.len()
        implies twice[i] == once[i] by {
        lemma_forward_params_only(addf, mulf, actf, zero, states, once, input, i);
    }
    assert(twice =~= once);
}

/// Resolve an activation name against the registry. Unrecognized names do
/// not fail: they fall back to the same rectifier that `"relu"` and
/// `"default"` select.
pub fn get_actvation_from_string(name: &str) -> (k: ActivationKind)
    ensures
        k == spec_activation_of(name@),
{
    let t = normalize_name(name);
    if chars_eq_str(&t, "sigmoid") {
        ActivationKind::Sigmoid
    } else if chars_eq_str(&t, "id") || chars_eq_str(&t, "identity") {
        ActivationKind::Identity
    } else {
        ActivationKind::Relu
    }
}

/// Resolve a cost name against the registry. `"quadratic"`, `"default"` and
/// every unrecognized name select the quadratic cost, the only entry.
pub fn get_cost_from_string(name: &str) -> (k: CostKind)
    ensures
        k == spec_cost_of(name@),
{
    let _ = normalize_name(name);
    CostKind::Quadratic
}

/// Law: with a mini-batch of one sample the mean divisor is the scalar
/// one; provided the supplied division maps `x / one` to `x`, every
/// parameter then moves by exactly `learning_rate * gradient`.
pub proof fn lemma_param_update_unit_mean<
    T,
    FSub: Fn(T, T) -> T,
    FMul: Fn(T, T) -> T,
    FDiv: Fn(T, T) -> T,
>(subf: FSub, mulf: FMul, divf: FDiv, p: MatModel<T>, g: MatModel<T>, learning_rate: T, one: T)
    requires
        forall|x: T| #[trigger] bin_val(divf, x, one) == x,
    ensures
        ({
            let r = spec_param_update(subf, mulf, divf, p, g, learning_rate, one);
            forall|n: int|
                0 <= n < p.vals.len() ==> #[trigger] r.vals[n] == bin_val(
                    subf,
                    p.vals[n],
                    bin_val(mulf, g.vals[n], learning_rate),
                )
        }),
{
}

/// One sample's contribution to the cost: the cost terms of the output
/// cells against the expected cells, summed left to right onto `acc`.
pub open spec fn spec_fold_cost<T, FCostT: Fn(CostKind, T, T) -> T, FAdd: Fn(T, T) -> T>(
    costtf: FCostT,
    addf: FAdd,
    kind: CostKind,
    acc: T,
    out: Seq<T>,
    target: Seq<T>,
    n: int,
) -> T
    decreases n,
{
    if n <= 0 {
        acc
    } else {
        bin_val(
            addf,
            spec_fold_cost(costtf, addf, kind, acc, out, target, n - 1),
            tri_val(costtf, kind, out[n - 1], target[n - 1]),
        )
    }
}

/// The cost of one output vector against its expected vector: the summed
/// cost terms over the cells both vectors have.
pub open spec fn spec_vec_cost<T, FCostT: Fn(CostKind, T, T) -> T, FAdd: Fn(T, T) -> T>(
    costtf: FCostT,
    addf: FAdd,
    kind: CostKind,
    zero: T,
    out: Seq<T>,
    target: Seq<T>,
) -> T {
    let n = if out.len() <= target.len() {
        out.len() as int
    } else {
        target.len() as int
    };
    spec_fold_cost(costtf, addf, kind, zero, out, target, n)
}

/// The output layer's backward step: `pre` becomes the activation
/// derivative of itself, `post` the cost derivative against `target`
/// multiplied cell by cell with the new `pre` - the error signal.
pub open spec fn spec_delta_last<
    T,
    FCostD: Fn(CostKind, T, T) -> T,
    FActD: Fn(ActivationKind, T) -> T,
    FMul: Fn(T, T) -> T,
>(
    costdf: FCostD,
    actdf: FActD,
    mulf: FMul,
    cost: CostKind,
    st: LayerState<T>,
    target: Seq<T>,
) -> LayerState<T> {
    let pre2 = spec_activate(actdf, st.kind, st.pre);
    let post2 = spec_zip_with(mulf, spec_cost_derive(costdf, cost, st.post, target), pre2);
    LayerState { pre: pre2, post: post2, ..st }
}

/// A hidden layer's backward step: its error signal is the next layer's
/// error pulled back through the next layer's weights, times the activation
/// derivative.
pub open spec fn spec_delta_hidden<
    T,
    FAdd: Fn(T, T) -> T,
    FMul: Fn(T, T) -> T,
    FActD: Fn(ActivationKind, T) -> T,
>(
    addf: FAdd,
    mulf: FMul,
    actdf: FActD,
    zero: T,
    st: LayerState<T>,
    next: LayerState<T>,
) -> LayerState<T> {
    let pre2 = spec_activate(actdf, st.kind, st.pre);
    let post2 = spec_zip_with(mulf, spec_trans_dot(next.w, next.post, addf, mulf, zero), pre2);
    LayerState { pre: pre2, post: post2, ..st }
}

/// Fold one sample's weight gradient into the accumulator: the outer
/// product of the layer's error signal and the predecessor values.
pub open spec fn spec_acc_w<T, FAdd: Fn(T, T) -> T, FMul: Fn(T, T) -> T>(
    addf: FAdd,
    mulf: FMul,
    st: LayerState<T>,
    prev_vals: Seq<T>,
) -> LayerState<T> {
    LayerState {
        gw: spec_accumulate_outer(st.gw, prev_vals, st.post.vals, addf, mulf),
        ..st
    }
}

/// Fold one sample's bias gradient into the accumulator: add the layer's
/// error signal.
pub open spec fn spec_acc_b<T, FAdd: Fn(T, T) -> T>(addf: FAdd, st: LayerState<T>) -> LayerState<
    T,
> {
    LayerState { gb: spec_zip_with(addf, st.gb, st.post), ..st }
}

/// The backward step of layer `i`: its error signal from layer `i + 1`,
/// then its weight gradient against the predecessor values (the raw input
/// for layer `0`) and its bias gradient.
pub open spec fn spec_backward_step<
    T,
    FAdd: Fn(T, T) -> T,
    FMul: Fn(T, T) -> T,
    FActD: Fn(ActivationKind, T) -> T,
>(
    addf: FAdd,
    mulf: FMul,
    actdf: FActD,
    zero: T,
    states: Seq<LayerState<T>>,
    input: Seq<T>,
    i: int,
) -> Seq<LayerState<T>> {
    let prev_vals = if i == 0 {
        input
    } else {
        states[i - 1].post.vals
    };
    let st1 = spec_delta_hidden(addf, mulf, actdf, zero, states[i], states[i + 1]);
    let st2 = spec_acc_w(addf, mulf, st1, prev_vals);
    states.update(i, spec_acc_b(addf, st2))
}

/// The backward sweep from layer `i` down to layer `0`, in that order:
/// each layer reads the already-updated error of the layer above it.
#[verifier::opaque]
pub open spec fn spec_backward_down<
    T,
    FAdd: Fn(T, T) -> T,
    FMul: Fn(T, T) -> T,
    FActD: Fn(ActivationKind, T) -> T,
>(
    addf: FAdd,
    mulf: FMul,
    actdf: FActD,
    zero: T,
    states: Seq<LayerState<T>>,
    input: Seq<T>,
    i: int,
) -> Seq<LayerState<T>>
    decreases i + 1,
{
    if i < 0 {
        states
    } else {
        spec_backward_down(
            addf,
            mulf,
            actdf,
            zero,
            spec_backward_step(addf, mulf, actdf, zero, states, input, i),
            input,
            i - 1,
        )
    }
}

/// One training sample: a forward pass, the output layer's error and
/// gradients, then the backward sweep over the remaining layers.
pub open spec fn spec_train_sample<
    T,
    FAdd: Fn(T, T) -> T,
    FMul: Fn(T, T) -> T,
    FAct: Fn(ActivationKind, T) -> T,
    FActD: Fn(ActivationKind, T) -> T,
    FCostD: Fn(CostKind, T, T) -> T,
>(
    addf: FAdd,
    mulf: FMul,
    actf: FAct,
    actdf: FActD,
    costdf: FCostD,
    zero: T,
    cost: CostKind,
    states: Seq<LayerState<T>>,
    input: Seq<T>,
    target: Seq<T>,
) -> Seq<LayerState<T>> {
    let f = spec_forward(addf, mulf, actf, zero, states, input);
    let l = f.len() - 1;
    let s1 = spec_acc_b(
        addf,
        spec_acc_w(
            addf,
            mulf,
            spec_delta_last(costdf, actdf, mulf, cost, f[l], target),
            f[l - 1].post.vals,
        ),
    );
    spec_backward_down(addf, mulf, actdf, zero, f.update(l, s1), input, l - 1)
}

/// The gradient accumulation over a mini-batch: the samples folded in
/// order through `spec_train_sample`.
#[verifier::opaque]
pub open spec fn spec_minibatch_samples<
    T,
    FAdd: Fn(T, T) -> T,
    FMul: Fn(T, T) -> T,
    FAct: Fn(ActivationKind, T) -> T,
    FActD: Fn(ActivationKind, T) -> T,
    FCostD: Fn(CostKind, T, T) -> T,
>(
    addf: FAdd,
    mulf: FMul,
    actf: FAct,
    actdf: FActD,
    costdf: FCostD,
    zero: T,
    cost: CostKind,
    states: Seq<LayerState<T>>,
    data: Seq<(Vec<T>, Vec<T>)>,
    n: int,
) -> Seq<LayerState<T>>
    decreases n,
{
    if n <= 0 {
        states
    } else {
        spec_train_sample(
            addf,
            mulf,
            actf,
            actdf,
            costdf,
            zero,
            cost,
            spec_minibatch_samples(
                addf,
                mulf,
                actf,
                actdf,
                costdf,
                zero,
                cost,
                states,
                data,
                n - 1,
            ),
            data[n - 1].0@,
            data[n - 1].1@,
        )
    }
}

/// Every layer consumes its accumulated gradients in one mean update.
pub open spec fn spec_apply_updates<
    T,
    FSub: Fn(T, T) -> T,
    FMul: Fn(T, T) -> T,
    FDiv: Fn(T, T) -> T,
>(
    subf: FSub,
    mulf: FMul,
    divf: FDiv,
    states: Seq<LayerState<T>>,
    learning_rate: T,
    mean_value: T,
) -> Seq<LayerState<T>> {
    Seq::new(
        states.len(),
        |i: int| LayerState {
            w: spec_param_update(
                subf,
                mulf,
                divf,
                states[i].w,
                states[i].gw,
                learning_rate,
                mean_value,
            ),
            b: spec_param_update(
                subf,
                mulf,
                divf,
                states[i].b,
                states[i].gb,
                learning_rate,
                mean_value,
            ),
            ..states[i]
        },
    )
}

/// Every gradient accumulator reset to the zero, nothing else touched.
pub open spec fn spec_zero_grads<T>(states: Seq<LayerState<T>>, zero: T) -> Seq<LayerState<T>> {
    Seq::new(
        states.len(),
        |i: int| LayerState {
            gw: MatModel {
                rows: states[i].gw.rows,
                cols: states[i].gw.cols,
                vals: Seq::new(states[i].gw.vals.len(), |n: int| zero),
            },
            gb: MatModel {
                rows: states[i].gb.rows,
                cols: states[i].gb.cols,
                vals: Seq::new(states[i].gb.vals.len(), |n: int| zero),
            },
            ..states[i]
        },
    )
}

/// How many contiguous mini-batches a dataset of `len` samples yields at
/// batch size `mbs`: the division rounded up.
pub open spec fn spec_chunk_count(len: int, mbs: int) -> int {
    (len + mbs - 1) / mbs
}

/// The network state after the first `c` mini-batches of one epoch: for
/// each chunk in order, zero every gradient accumulator, accumulate and
/// apply the chunk's gradients, then run one forward pass on the chunk's
/// first sample.
#[verifier::opaque]
pub open spec fn spec_chunks<
    T: Copy,
    FAdd: Fn(T, T) -> T + Copy,
    FSub: Fn(T, T) -> T + Copy,
    FMul: Fn(T, T) -> T + Copy,
    FDiv: Fn(T, T) -> T + Copy,
    FAct: Fn(ActivationKind, T) -> T + Copy,
    FActD: Fn(ActivationKind, T) -> T + Copy,
    FCostT: Fn(CostKind, T, T) -> T + Copy,
    FCostD: Fn(CostKind, T, T) -> T + Copy,
    FGt: Fn(T, T) -> bool + Copy,
    FCnt: Fn(usize) -> T + Copy,
>(
    ops: ScalarOps<T, FAdd, FSub, FMul, FDiv, FAct, FActD, FCostT, FCostD, FGt, FCnt>,
    cost: CostKind,
    states: Seq<LayerState<T>>,
    data: Seq<(Vec<T>, Vec<T>)>,
    mbs: usize,
    learning_rate: T,
    c: int,
) -> Seq<LayerState<T>>
    decreases c,
{
    if c <= 0 {
        states
    } else {
        let prev = spec_chunks(ops, cost, states, data, mbs, learning_rate, c - 1);
        let lo = (c - 1) * (mbs as int);
        let hi = if c * (mbs as int) <= data.len() as int {
            c * (mbs as int)
        } else {
            data.len() as int
        };
        let chunk = data.subrange(lo, hi);
        let upd = NeuralNetWork::spec_update_minibatch(
            ops,
            cost,
            spec_zero_grads(prev, ops.zero),
            chunk,
            learning_rate,
        );
        spec_forward(ops.addf, ops.mulf, ops.actf, ops.zero, upd, chunk[0].0@)
    }
}

/// One training epoch: every mini-batch in order, then the representative
/// cost of the leading samples is recorded; once at least three epochs are
/// recorded and the newest cost exceeds the previous one, the learning
/// rate is halved. Yields the new states, learning rate and cost record.
pub open spec fn spec_epoch<
    T: Copy,
    FAdd: Fn(T, T) -> T + Copy,
    FSub: Fn(T, T) -> T + Copy,
    FMul: Fn(T, T) -> T + Copy,
    FDiv: Fn(T, T) -> T + Copy,
    FAct: Fn(ActivationKind, T) -> T + Copy,
    FActD: Fn(ActivationKind, T) -> T + Copy,
    FCostT: Fn(CostKind, T, T) -> T + Copy,
    FCostD: Fn(CostKind, T, T) -> T + Copy,
    FGt: Fn(T, T) -> bool + Copy,
    FCnt: Fn(usize) -> T + Copy,
>(
    ops: ScalarOps<T, FAdd, FSub, FMul, FDiv, FAct, FActD, FCostT, FCostD, FGt, FCnt>,
    cost: CostKind,
    mbs: usize,
    data: Seq<(Vec<T>, Vec<T>)>,
    states: Seq<LayerState<T>>,
    learning_rate: T,
    costs: Seq<T>,
) -> (Seq<LayerState<T>>, T, Seq<T>) {
    let s2 = spec_chunks(
        ops,
        cost,
        states,
        data,
        mbs,
        learning_rate,
        spec_chunk_count(data.len() as int, mbs as int),
    );
    let cd = data.subrange(
        0,
        if mbs as int <= data.len() as int {
            mbs as int
        } else {
            data.len() as int
        },
    );
    let c = NeuralNetWork::spec_batch_cost(ops, cost, s2, cd);
    let s3 = NeuralNetWork::spec_after_batch(ops, s2, cd);
    let costs2 = costs.push(c);
    let lr2 = if costs2.len() >= 3 && bin_val(ops.gtf, c, costs[costs.len() - 1]) {
        bin_val(ops.divf, learning_rate, un_val(ops.cntf, 2usize))
    } else {
        learning_rate
    };
    (s3, lr2, costs2)
}

/// The whole training run: `epochs` epochs from the given state, starting
/// with an empty cost record.
#[verifier::opaque]
pub open spec fn spec_train_epochs<
    T: Copy,
    FAdd: Fn(T, T) -> T + Copy,
    FSub: Fn(T, T) -> T + Copy,
    FMul: Fn(T, T) -> T + Copy,
    FDiv: Fn(T, T) -> T + Copy,
    FAct: Fn(ActivationKind, T) -> T + Copy,
    FActD: Fn(ActivationKind, T) -> T + Copy,
    FCostT: Fn(CostKind, T, T) -> T + Copy,
    FCostD: Fn(CostKind, T, T) -> T + Copy,
    FGt: Fn(T, T) -> bool + Copy,
    FCnt: Fn(usize) -> T + Copy,
>(
    ops: ScalarOps<T, FAdd, FSub, FMul, FDiv, FAct, FActD, FCostT, FCostD, FGt, FCnt>,
    cost: CostKind,
    mbs: usize,
    data: Seq<(Vec<T>, Vec<T>)>,
    states: Seq<LayerState<T>>,
    learning_rate: T,
    epochs: int,
) -> (Seq<LayerState<T>>, T, Seq<T>)
    decreases epochs,
{
    if epochs <= 0 {
        (states, learning_rate, Seq::<T>::empty())
    } else {
        let prev = spec_train_epochs(ops, cost, mbs, data, states, learning_rate, epochs - 1);
        spec_epoch(ops, cost, mbs, data, prev.0, prev.1, prev.2)
    }
}


/// Assembling a stack's states: if every layer but `l` shows the states of
/// `f` and layer `l` shows `s1`, the stack's states are `f` with `l`
/// replaced by `s1`.
#[verifier::rlimit(100)]
pub proof fn lemma_states_update<T>(
    layers: Seq<Layer<T>>,
    f: Seq<LayerState<T>>,
    s1: LayerState<T>,
    l: int,
)
    requires
        layers.len() == f.len(),
        0 <= l < layers.len(),
        forall|k: int| 0 <= k < layers.len() && k != l ==> (#[trigger] layers[k]).st() == f[k],
        layers[l].st() == s1,
    ensures
        net_states(layers) == f.update(l, s1),
{
    assert(net_states(layers) =~= f.update(l, s1));
}

/// A freshly built layer: every weight and bias is some value the
/// initializer can produce, and every cache and gradient cell is the zero.
pub open spec fn layer_init_ok<T, FIn: Fn() -> T>(l: Layer<T>, initf: FIn, zero: T) -> bool {
    &&& forall|n: int|
        0 <= n < l.w_matrix.values@.len() ==> call_ensures(
            initf,
            (),
            #[trigger] l.w_matrix.values@[n],
        )
    &&& forall|n: int|
        0 <= n < l.b_matrix.values@.len() ==> call_ensures(
            initf,
            (),
            #[trigger] l.b_matrix.values@[n],
        )
    &&& forall|n: int|
        0 <= n < l.pre_activation.values@.len() ==> #[trigger] l.pre_activation.values@[n] == zero
    &&& forall|n: int|
        0 <= n < l.post_activation.values@.len() ==> #[trigger] l.post_activation.values@[n]
            == zero
    &&& forall|n: int|
        0 <= n < l.grad_w.values@.len() ==> #[trigger] l.grad_w.values@[n] == zero
    &&& forall|n: int|
        0 <= n < l.grad_b.values@.len() ==> #[trigger] l.grad_b.values@[n] == zero
}

/// Sum the cost terms of an output vector against its expected vector.
#[verifier::loop_isolation(false)]
fn vec_cost<T: Copy, FCostT: Fn(CostKind, T, T) -> T + Copy, FAdd: Fn(T, T) -> T + Copy>(
    out: &Vec<T>,
    target: &Vec<T>,
    kind: CostKind,
    costtf: FCostT,
    addf: FAdd,
    zero: T,
) -> (r: T)
    requires
        tri_ok(costtf),
        bin_ok(addf),
    ensures
        r == spec_vec_cost(costtf, addf, kind, zero, out@, target@),
{
    let n = if out.len() <= target.len() {
        out.len()
    } else {
        target.len()
    };
    let mut acc = zero;
    let mut k: usize = 0;
    while k < n
        invariant
            k <= n,
            acc == spec_fold_cost(costtf, addf, kind, zero, out@, target@, k as int),
        decreases n - k,
    {
        let t = costtf(kind, out[k], target[k]);
        let a2 = addf(acc, t);
        proof {
            lemma_tri_val(costtf, kind, out@[k as int], target@[k as int], t);
            lemma_bin_val(addf, acc, t, a2);
        }
        acc = a2;
        k += 1;
    }
    acc
}

/// The network: an owned, ordered stack of layers, the resolved cost
/// selector and the scalar arithmetic bundle, all fixed at construction.
pub struct NeuralNetWork<T, FAdd, FSub, FMul, FDiv, FAct, FActD, FCostT, FCostD, FGt, FCnt> {
    pub layers: Vec<Layer<T>>,
    pub nb_layer: usize,
    pub input_size: usize,
    pub cost: CostKind,
    pub ops: ScalarOps<T, FAdd, FSub, FMul, FDiv, FAct, FActD, FCostT, FCostD, FGt, FCnt>,
}

impl<
    T: Copy,
    FAdd: Fn(T, T) -> T + Copy,
    FSub: Fn(T, T) -> T + Copy,
    FMul: Fn(T, T) -> T + Copy,
    FDiv: Fn(T, T) -> T + Copy,
    FAct: Fn(ActivationKind, T) -> T + Copy,
    FActD: Fn(ActivationKind, T) -> T + Copy,
    FCostT: Fn(CostKind, T, T) -> T + Copy,
    FCostD: Fn(CostKind, T, T) -> T + Copy,
    FGt: Fn(T, T) -> bool + Copy,
    FCnt: Fn(usize) -> T + Copy,
> NeuralNetWork<T, FAdd, FSub, FMul, FDiv, FAct, FActD, FCostT, FCostD, FGt, FCnt> {
    /// The layer stack is consistent: the bookkeeping count matches, every
    /// layer is well-formed, the first layer reads the network input, and
    /// every later layer reads exactly its predecessor's output.
    pub open spec fn layers_wf(self) -> bool {
        &&& self.layers@.len() == self.nb_layer
        &&& forall|i: int| 0 <= i < self.layers@.len() ==> (#[trigger] self.layers@[i]).wf()
        &&& (self.layers@.len() > 0 ==> self.layers@[0].w_matrix.cols == self.input_size)
        &&& forall|i: int|
            1 <= i < self.layers@.len() ==> (#[trigger] self.layers@[i]).w_matrix.cols
                == self.layers@[i - 1].len
    }

    /// A usable network: a consistent, nonempty stack over a bundle of
    /// total, deterministic scalar functions. Training additionally needs
    /// at least two layers; see `train`.
    pub open spec fn wf(self) -> bool {
        &&& self.layers_wf()
        &&& self.nb_layer >= 1
        &&& ops_ok(self.ops)
    }

    /// The configuration fields and the arithmetic are untouched.
    pub open spec fn same_config(self, other: Self) -> bool {
        &&& self.nb_layer == other.nb_layer
        &&& self.input_size == other.input_size
        &&& self.cost == other.cost
        &&& self.ops == other.ops
    }

    /// Build a network from a layer-size sequence: the first entry is the
    /// input width, every later entry the neuron count of one layer. Hidden
    /// layers get the activation that `activation_str` resolves to, the
    /// output layer the one `output_activation_str` resolves to, and the
    /// cost selector comes from `cost_str`. Weights and biases are drawn
    /// cell by cell from `initf`; caches and gradients start at the zero.
    #[verifier::rlimit(100)]
    pub fn new<FIn: Fn() -> T + Copy>(
        config: &Vec<u32>,
        cost_str: &str,
        activation_str: &str,
        output_activation_str: &str,
        initf: FIn,
        ops: ScalarOps<T, FAdd, FSub, FMul, FDiv, FAct, FActD, FCostT, FCostD, FGt, FCnt>,
    ) -> (nn: Self)
        requires
            config@.len() >= 2,
            forall|i: int| 1 <= i < config@.len() ==> #[trigger] config@[i] > 0,
            forall|i: int|
                1 <= i < config@.len() ==> #[trigger] (config@[i] as int * config@[i - 1] as int)
                    <= usize::MAX,
            call_requires(initf, ()),
            ops_ok(ops),
        ensures
            nn.wf(),
            nn.nb_layer == config@.len() - 1,
            nn.input_size == config@[0],
            nn.cost == spec_cost_of(cost_str@),
            nn.ops == ops,
            forall|i: int|
                0 <= i < nn.layers@.len() ==> (#[trigger] nn.layers@[i]).len == config@[i + 1],
            forall|i: int|
                0 <= i < nn.layers@.len() - 1 ==> (#[trigger] nn.layers@[i]).activation
                    == spec_activation_of(activation_str@),
            nn.layers@[nn.layers@.len() - 1].activation == spec_activation_of(
                output_activation_str@,
            ),
            forall|i: int|
                0 <= i < nn.layers@.len() ==> layer_init_ok(
                    #[trigger] nn.layers@[i],
                    initf,
                    ops.zero,
                ),
    {
        proof {
            reveal(ops_ok);
        }
        let cost = get_cost_from_string(cost_str);
        let mut nn = NeuralNetWork {
            layers: Vec::new(),
            nb_layer: 0,
            input_size: config[0] as usize,
            cost,
            ops,
        };
        let last = config.len() - 1;
        let mut i: usize = 1;
        while i < last
            invariant
                1 <= i <= last,
                last == config@.len() - 1,
                config@.len() >= 2,
                forall|k: int| 1 <= k < config@.len() ==> #[trigger] config@[k] > 0,
                forall|k: int|
                    1 <= k < config@.len() ==> #[trigger] (config@[k] as int * config@[k
                        - 1] as int) <= usize::MAX,
                call_requires(initf, ()),
                nn.layers_wf(),
                nn.nb_layer == i - 1,
                nn.input_size == config@[0],
                nn.cost == spec_cost_of(cost_str@),
                nn.ops == ops,
                forall|k: int|
                    0 <= k < nn.layers@.len() ==> (#[trigger] nn.layers@[k]).len == config@[k
                        + 1],
                forall|k: int|
                    0 <= k < nn.layers@.len() ==> (#[trigger] nn.layers@[k]).activation
                        == spec_activation_of(activation_str@),
                forall|k: int|
                    0 <= k < nn.layers@.len() ==> layer_init_ok(
                        #[trigger] nn.layers@[k],
                        initf,
                        ops.zero,
                    ),
            decreases last - i,
        {
            nn.add(config[i] as usize, activation_str, initf);
            i += 1;
        }
        nn.add(config[last] as usize, output_activation_str, initf);
        nn
    }

    /// Append one layer of `nb_neurons` neurons, reading as many inputs as
    /// the current last layer has neurons (or the network input width for
    /// the first layer), with the activation that `activation_str`
    /// resolves to and parameters drawn from `initf`.
    pub fn add<FIn: Fn() -> T + Copy>(&mut self, nb_neurons: usize, activation_str: &str, initf: FIn)
        requires
            old(self).layers_wf(),
            nb_neurons > 0,
            nb_neurons as int * (if old(self).layers@.len() == 0 {
                old(self).input_size as int
            } else {
                old(self).layers@[old(self).layers@.len() - 1].len as int
            }) <= usize::MAX,
            call_requires(initf, ()),
        ensures
            final(self).layers_wf(),
            final(self).nb_layer == old(self).nb_layer + 1,
            final(self).input_size == old(self).input_size,
            final(self).cost == old(self).cost,
            final(self).ops == old(self).ops,
            final(self).layers@.len() == old(self).layers@.len() + 1,
            forall|k: int|
                0 <= k < old(self).layers@.len() ==> final(self).layers@[k] == old(
                    self,
                ).layers@[k],
            final(self).layers@.last().len == nb_neurons,
            final(self).layers@.last().activation == spec_activation_of(activation_str@),
            layer_init_ok(final(self).layers@.last(), initf, old(self).ops.zero),
    {
        let kind = get_actvation_from_string(activation_str);
        let cols = if self.layers.len() == 0 {
            self.input_size
        } else {
            self.layers[self.layers.len() - 1].len
        };
        let zero = self.ops.zero;
        proof {
            assert(nb_neurons as int * 1 == nb_neurons as int) by (nonlinear_arith);
        }
        let layer = Layer {
            w_matrix: Matrix::new_from_init(nb_neurons, cols, initf),
            b_matrix: Matrix::new_from_init(nb_neurons, 1, initf),
            pre_activation: Matrix::new(nb_neurons, 1, zero),
            post_activation: Matrix::new(nb_neurons, 1, zero),
            activation: kind,
            len: nb_neurons,
            grad_w: Matrix::new(nb_neurons, cols, zero),
            grad_b: Matrix::new(nb_neurons, 1, zero),
        };
        self.layers.push(layer);
        self.nb_layer = self.layers.len();
    }

    /// The output vector of a forward pass on `input`: the last layer's
    /// post-activation cells.
    pub open spec fn spec_net_output(
        ops: ScalarOps<T, FAdd, FSub, FMul, FDiv, FAct, FActD, FCostT, FCostD, FGt, FCnt>,
        states: Seq<LayerState<T>>,
        input: Seq<T>,
    ) -> Seq<T> {
        spec_forward_upto(
            ops.addf,
            ops.mulf,
            ops.actf,
            ops.zero,
            states,
            input,
            states.len() - 1,
        ).1.vals
    }

    /// The cost of one sample: forward the input, compare the output
    /// against the expected vector under the resolved cost.
    pub open spec fn spec_sample_cost(
        ops: ScalarOps<T, FAdd, FSub, FMul, FDiv, FAct, FActD, FCostT, FCostD, FGt, FCnt>,
        cost: CostKind,
        states: Seq<LayerState<T>>,
        input: Seq<T>,
        target: Seq<T>,
    ) -> T {
        spec_vec_cost(
            ops.costtf,
            ops.addf,
            cost,
            ops.zero,
            Self::spec_net_output(ops, states, input),
            target,
        )
    }

    /// The summed cost of the first `n` samples. The layers' parameters
    /// alone enter, so the fold needs no state threading.
    pub open spec fn spec_batch_fold(
        ops: ScalarOps<T, FAdd, FSub, FMul, FDiv, FAct, FActD, FCostT, FCostD, FGt, FCnt>,
        cost: CostKind,
        states: Seq<LayerState<T>>,
        data: Seq<(Vec<T>, Vec<T>)>,
        n: int,
    ) -> T
        decreases n,
    {
        if n <= 0 {
            ops.zero
        } else {
            bin_val(
                ops.addf,
                Self::spec_batch_fold(ops, cost, states, data, n - 1),
                Self::spec_sample_cost(ops, cost, states, data[n - 1].0@, data[n - 1].1@),
            )
        }
    }

    /// The representative cost of a sample batch: the summed sample costs
    /// divided by the sample count.
    pub open spec fn spec_batch_cost(
        ops: ScalarOps<T, FAdd, FSub, FMul, FDiv, FAct, FActD, FCostT, FCostD, FGt, FCnt>,
        cost: CostKind,
        states: Seq<LayerState<T>>,
        data: Seq<(Vec<T>, Vec<T>)>,
    ) -> T {
        bin_val(
            ops.divf,
            Self::spec_batch_fold(ops, cost, states, data, data.len() as int),
            un_val(ops.cntf, data.len() as usize),
        )
    }

    /// Everything one mini-batch does to the network: the samples' gradients
    /// accumulated in order, then one mean parameter update per layer.
    pub open spec fn spec_update_minibatch(
        ops: ScalarOps<T, FAdd, FSub, FMul, FDiv, FAct, FActD, FCostT, FCostD, FGt, FCnt>,
        cost: CostKind,
        states: Seq<LayerState<T>>,
        data: Seq<(Vec<T>, Vec<T>)>,
        learning_rate: T,
    ) -> Seq<LayerState<T>> {
        spec_apply_updates(
            ops.subf,
            ops.mulf,
            ops.divf,
            spec_minibatch_samples(
                ops.addf,
                ops.mulf,
                ops.actf,
                ops.actdf,
                ops.costdf,
                ops.zero,
                cost,
                states,
                data,
                data.len() as int,
            ),
            learning_rate,
            un_val(ops.cntf, data.len() as usize),
        )
    }

    /// Where `batch_cost` leaves the caches: those of a forward pass on
    /// the last sample it visited (the batch's last entry), or untouched
    /// for an empty batch.
    pub open spec fn spec_after_batch(
        ops: ScalarOps<T, FAdd, FSub, FMul, FDiv, FAct, FActD, FCostT, FCostD, FGt, FCnt>,
        states: Seq<LayerState<T>>,
        data: Seq<(Vec<T>, Vec<T>)>,
    ) -> Seq<LayerState<T>> {
        if data.len() == 0 {
            states
        } else {
            spec_forward(
                ops.addf,
                ops.mulf,
                ops.actf,
                ops.zero,
                states,
                data[data.len() - 1].0@,
            )
        }
    }

    /// Run a full forward pass: layer `0` reads the raw input, every later
    /// layer reads its predecessor's fresh output; the network's output is
    /// then held in the last layer's `post_activation` buffer.
    #[verifier::rlimit(50)]
    pub fn input(&mut self, input: &Vec<T>)
        requires
            old(self).wf(),
            input@.len() == old(self).input_size,
            old(self).input_size != 0,
        ensures
            final(self).wf(),
            final(self).same_config(*old(self)),
            final(self).layers@.len() == old(self).layers@.len(),
            final(self).layers@[old(self).nb_layer - 1].len == old(self).layers@[old(
                self,
            ).nb_layer - 1].len,
            net_states(final(self).layers@) == spec_forward(
                old(self).ops.addf,
                old(self).ops.mulf,
                old(self).ops.actf,
                old(self).ops.zero,
                net_states(old(self).layers@),
                input@,
            ),
    {
        proof {
            reveal(ops_ok);
        }
        let ghost target = spec_forward(
            self.ops.addf,
            self.ops.mulf,
            self.ops.actf,
            self.ops.zero,
            net_states(self.layers@),
            input@,
        );
        let ops = self.ops;
        let ghost states0 = net_states(self.layers@);
        self.layers[0].input_pass(input, ops.addf, ops.mulf, ops.actf, ops.zero);
        proof {
            lemma_spec_forward_at(ops.addf, ops.mulf, ops.actf, ops.zero, states0, input@, 0);
            assert(states0[0] == old(self).layers@[0].st());
            assert(self.layers@[0].st() =~= target[0]);
        }
        let mut i: usize = 1;
        while i < self.nb_layer
            invariant
                1 <= i <= self.nb_layer,
                self.nb_layer == old(self).nb_layer,
                self.input_size == old(self).input_size,
                self.cost == old(self).cost,
                self.ops == old(self).ops,
                ops == old(self).ops,
                self.layers@.len() == old(self).layers@.len(),
                self.wf(),
                states0 == net_states(old(self).layers@),
                target == spec_forward(ops.addf, ops.mulf, ops.actf, ops.zero, states0, input@),
                forall|k: int| 0 <= k < i ==> (#[trigger] self.layers@[k]).st() == target[k],
                forall|k: int|
                    i <= k < self.layers@.len() ==> self.layers@[k] == old(self).layers@[k],
            decreases self.nb_layer - i,
        {
            proof {
                reveal(ops_ok);
            }
            let prev = self.layers[i - 1].post_activation.duplicate();
            self.layers[i].layer_pass(&prev, ops.addf, ops.mulf, ops.actf, ops.zero);
            proof {
                lemma_spec_forward_at(
                    ops.addf,
                    ops.mulf,
                    ops.actf,
                    ops.zero,
                    states0,
                    input@,
                    i as int,
                );
                lemma_dot_of_column(
                    old(self).layers@[i as int].w_matrix.m(),
                    prev.m(),
                    ops.addf,
                    ops.mulf,
                    ops.zero,
                );
                assert(states0[i as int] == old(self).layers@[i as int].st());
                assert(prev.m().vals == target[i as int - 1].post.vals);
                assert(self.layers@[i as int].st() =~= target[i as int]);
            }
            i += 1;
        }
        proof {
            assert(net_states(self.layers@) =~= target);
            let l = self.nb_layer as int - 1;
            lemma_spec_forward_at(ops.addf, ops.mulf, ops.actf, ops.zero, states0, input@, l);
            assert(self.layers@[l].st() == target[l]);
        }
    }

    /// The representative cost of a sample batch: forward each sample,
    /// compare against its expected vector under the resolved cost, and
    /// average over the sample count. The last sample's activations stay
    /// in the caches.
    #[verifier::rlimit(50)]
    pub fn batch_cost(&mut self, data: &[(Vec<T>, Vec<T>)]) -> (r: T)
        requires
            old(self).wf(),
            old(self).input_size != 0,
            forall|q: int|
                0 <= q < data@.len() ==> (#[trigger] data@[q]).0@.len() == old(self).input_size,
        ensures
            final(self).wf(),
            final(self).same_config(*old(self)),
            final(self).layers@.len() == old(self).layers@.len(),
            final(self).layers@[old(self).nb_layer - 1].len == old(self).layers@[old(
                self,
            ).nb_layer - 1].len,
            net_states(final(self).layers@) == Self::spec_after_batch(
                old(self).ops,
                net_states(old(self).layers@),
                data@,
            ),
            r == Self::spec_batch_cost(
                old(self).ops,
                old(self).cost,
                net_states(old(self).layers@),
                data@,
            ),
    {
        proof {
            reveal(ops_ok);
        }
        let ops = self.ops;
        let kind = self.cost;
        let ghost states0 = net_states(self.layers@);
        let mut cost = ops.zero;
        let n = data.len();
        let mut s: usize = 0;
        while s < n
            invariant
                s <= n,
                n == data@.len(),
                self.wf(),
                self.nb_layer == old(self).nb_layer,
                self.input_size == old(self).input_size,
                self.cost == old(self).cost,
                self.ops == old(self).ops,
                ops == old(self).ops,
                kind == old(self).cost,
                self.layers@.len() == old(self).layers@.len(),
                states0 == net_states(old(self).layers@),
                old(self).input_size != 0,
                forall|q: int|
                    0 <= q < data@.len() ==> (#[trigger] data@[q]).0@.len() == old(
                        self,
                    ).input_size,
                if s == 0 {
                    net_states(self.layers@) == states0
                } else {
                    net_states(self.layers@) == spec_forward(
                        ops.addf,
                        ops.mulf,
                        ops.actf,
                        ops.zero,
                        states0,
                        data@[s as int - 1].0@,
                    )
                },
                cost == Self::spec_batch_fold(ops, kind, states0, data@, s as int),
            decreases n - s,
        {
            proof {
                reveal(ops_ok);
            }
            let pair = &data[s];
            self.input(&pair.0);
            proof {
                if s != 0 {
                    lemma_forward_absorb(
                        ops.addf,
                        ops.mulf,
                        ops.actf,
                        ops.zero,
                        states0,
                        data@[s as int - 1].0@,
                        data@[s as int].0@,
                    );
                }
            }
            let l = self.nb_layer - 1;
            let lastpost = self.layers[l].post_activation.duplicate();
            let sc = vec_cost(&lastpost.values, &pair.1, kind, ops.costtf, ops.addf, ops.zero);
            let c2 = (ops.addf)(cost, sc);
            proof {
                lemma_bin_val(ops.addf, cost, sc, c2);
                lemma_spec_forward_at(
                    ops.addf,
                    ops.mulf,
                    ops.actf,
                    ops.zero,
                    states0,
                    data@[s as int].0@,
                    l as int,
                );
                assert(net_states(self.layers@)[l as int].post.vals == lastpost.values@);
                assert(lastpost.values@ == Self::spec_net_output(ops, states0, data@[s as int].0@));
            }
            cost = c2;
            s += 1;
        }
        proof {
            let l = self.nb_layer as int - 1;
            if n > 0 {
                lemma_spec_forward_at(
                    ops.addf,
                    ops.mulf,
                    ops.actf,
                    ops.zero,
                    states0,
                    data@[n as int - 1].0@,
                    l,
                );
            }
            assert(net_states(self.layers@)[l] == self.layers@[l].st());
            assert(states0[l] == old(self).layers@[l].st());
        }
        let cnt = (ops.cntf)(n);
        let r = (ops.divf)(cost, cnt);
        proof {
            lemma_un_val(ops.cntf, n, cnt);
            lemma_bin_val(ops.divf, cost, cnt, r);
        }
        r
    }

    /// The backward sweep below the output layer: walk from the last
    /// hidden layer down to the first, computing each layer's error signal
    /// from the layer above and folding in its weight and bias gradients;
    /// the first layer reads the raw input as its predecessor values.
    #[verifier::rlimit(100)]
    fn backward_sweep(&mut self, input: &Vec<T>)
        requires
            old(self).wf(),
            old(self).nb_layer >= 2,
            old(self).input_size != 0,
            input@.len() == old(self).input_size,
        ensures
            final(self).wf(),
            final(self).same_config(*old(self)),
            final(self).layers@.len() == old(self).layers@.len(),
            final(self).layers@[old(self).nb_layer - 1].len == old(self).layers@[old(
                self,
            ).nb_layer - 1].len,
            net_states(final(self).layers@) == spec_backward_down(
                old(self).ops.addf,
                old(self).ops.mulf,
                old(self).ops.actdf,
                old(self).ops.zero,
                net_states(old(self).layers@),
                input@,
                old(self).nb_layer as int - 2,
            ),
    {
        proof {
            reveal(ops_ok);
        }
        let ops = self.ops;
        let ghost full = spec_backward_down(
            ops.addf,
            ops.mulf,
            ops.actdf,
            ops.zero,
            net_states(self.layers@),
            input@,
            self.nb_layer as int - 2,
        );
        let mut i: usize = self.nb_layer - 1;
        while i > 0
            invariant
                i <= self.nb_layer - 1,
                self.wf(),
                self.nb_layer == old(self).nb_layer,
                self.nb_layer >= 2,
                self.input_size == old(self).input_size,
                self.cost == old(self).cost,
                self.ops == old(self).ops,
                ops == old(self).ops,
                self.layers@.len() == old(self).layers@.len(),
                input@.len() == old(self).input_size,
                old(self).input_size != 0,
                self.layers@[old(self).nb_layer - 1].len == old(self).layers@[old(
                    self,
                ).nb_layer - 1].len,
                full == spec_backward_down(
                    ops.addf,
                    ops.mulf,
                    ops.actdf,
                    ops.zero,
                    net_states(self.layers@),
                    input@,
                    i as int - 1,
                ),
            decreases i,
        {
            proof {
                reveal(ops_ok);
            }
            i -= 1;
            let ghost snap = net_states(self.layers@);
            let fw = self.layers[i + 1].w_matrix.duplicate();
            let fd = self.layers[i + 1].post_activation.duplicate();
            proof {
                assert(self.layers@[i as int + 1].len as int * 1 == self.layers@[i as int
                    + 1].len as int) by (nonlinear_arith);
                assert(self.layers@[i as int].len as int * 1 == self.layers@[i as int].len as int)
                    by (nonlinear_arith);
                if i > 0 {
                    assert(self.layers@[i as int - 1].len as int * 1 == self.layers@[i as int
                        - 1].len as int) by (nonlinear_arith);
                }
            }
            self.layers[i].compute_delta(&fw, &fd, ops.addf, ops.mulf, ops.actdf, ops.zero);
            if i == 0 {
                self.layers[0].compute_w_grad(input, ops.addf, ops.mulf);
            } else {
                let pv = self.layers[i - 1].post_activation.duplicate();
                self.layers[i].compute_w_grad(&pv.values, ops.addf, ops.mulf);
            }
            self.layers[i].compute_b_grad(ops.addf);
            proof {
                let stepd = spec_backward_step(
                    ops.addf,
                    ops.mulf,
                    ops.actdf,
                    ops.zero,
                    snap,
                    input@,
                    i as int,
                );
                assert(self.layers@[i as int].st() =~= stepd[i as int]);
                assert(net_states(self.layers@) =~= stepd);
                reveal(spec_backward_down);
            }
        }
        proof {
            reveal(spec_backward_down);
        }
    }

    /// The output layer's share of one sample: its error signal from the
    /// cost derivative, then its weight gradient against the predecessor
    /// values and its bias gradient.
    #[verifier::rlimit(100)]
    fn output_step(&mut self, target: &Vec<T>, prev_vals: &Vec<T>)
        requires
            old(self).wf(),
            old(self).nb_layer >= 2,
            target@.len() == old(self).layers@[old(self).nb_layer - 1].len,
            prev_vals@.len() == old(self).layers@[old(self).nb_layer - 1].w_matrix.cols,
            prev_vals@.len() != 0,
        ensures
            final(self).wf(),
            final(self).same_config(*old(self)),
            final(self).layers@.len() == old(self).layers@.len(),
            forall|k: int|
                0 <= k < old(self).layers@.len() && k != old(self).nb_layer - 1
                    ==> final(self).layers@[k] == old(self).layers@[k],
            final(self).layers@[old(self).nb_layer - 1].st() == spec_acc_b(
                old(self).ops.addf,
                spec_acc_w(
                    old(self).ops.addf,
                    old(self).ops.mulf,
                    spec_delta_last(
                        old(self).ops.costdf,
                        old(self).ops.actdf,
                        old(self).ops.mulf,
                        old(self).cost,
                        old(self).layers@[old(self).nb_layer - 1].st(),
                        target@,
                    ),
                    prev_vals@,
                ),
            ),
            final(self).layers@[old(self).nb_layer - 1].len == old(self).layers@[old(
                self,
            ).nb_layer - 1].len,
    {
        proof {
            reveal(ops_ok);
        }
        let ops = self.ops;
        let l = self.nb_layer - 1;
        proof {
            assert(self.layers@[l as int].len as int * 1 == self.layers@[l as int].len as int)
                by (nonlinear_arith);
        }
        self.layers[l].compute_delta_last_layer(target, self.cost, ops.costdf, ops.actdf, ops.mulf);
        self.layers[l].compute_w_grad(prev_vals, ops.addf, ops.mulf);
        self.layers[l].compute_b_grad(ops.addf);
        proof {
            assert(self.layers@[l as int].st() =~= spec_acc_b(
                ops.addf,
                spec_acc_w(
                    ops.addf,
                    ops.mulf,
                    spec_delta_last(
                        ops.costdf,
                        ops.actdf,
                        ops.mulf,
                        old(self).cost,
                        old(self).layers@[l as int].st(),
                        target@,
                    ),
                    prev_vals@,
                ),
            ));
        }
    }

    /// One sample of the gradient sweep: forward the input, compute the
    /// output layer's error and gradients, then run the backward sweep
    /// over the remaining layers.
    #[verifier::rlimit(100)]
    fn train_sample(&mut self, input: &Vec<T>, target: &Vec<T>)
        requires
            old(self).wf(),
            old(self).nb_layer >= 2,
            old(self).input_size != 0,
            input@.len() == old(self).input_size,
            target@.len() == old(self).layers@[old(self).nb_layer - 1].len,
        ensures
            final(self).wf(),
            final(self).same_config(*old(self)),
            final(self).layers@.len() == old(self).layers@.len(),
            final(self).layers@[old(self).nb_layer - 1].len == old(self).layers@[old(
                self,
            ).nb_layer - 1].len,
            net_states(final(self).layers@) == spec_train_sample(
                old(self).ops.addf,
                old(self).ops.mulf,
                old(self).ops.actf,
                old(self).ops.actdf,
                old(self).ops.costdf,
                old(self).ops.zero,
                old(self).cost,
                net_states(old(self).layers@),
                input@,
                target@,
            ),
    {
        let ops = self.ops;
        let ghost states0 = net_states(self.layers@);
        let ghost f = spec_forward(ops.addf, ops.mulf, ops.actf, ops.zero, states0, input@);
        self.input(input);
        let l = self.nb_layer - 1;
        let prev_vals = self.layers[l - 1].post_activation.duplicate();
        proof {
            lemma_spec_forward_at(
                ops.addf,
                ops.mulf,
                ops.actf,
                ops.zero,
                states0,
                input@,
                l as int - 1,
            );
            lemma_spec_forward_at(ops.addf, ops.mulf, ops.actf, ops.zero, states0, input@, l as int);
            assert(prev_vals.values@ == f[l as int - 1].post.vals);
            assert(self.layers@[l as int - 1].len as int * 1 == self.layers@[l as int
                - 1].len as int) by (nonlinear_arith);
        }
        self.output_step(target, &prev_vals.values);
        let ghost s1 = spec_acc_b(
            ops.addf,
            spec_acc_w(
                ops.addf,
                ops.mulf,
                spec_delta_last(
                    ops.costdf,
                    ops.actdf,
                    ops.mulf,
                    old(self).cost,
                    f[l as int],
                    target@,
                ),
                f[l as int - 1].post.vals,
            ),
        );
        proof {
            assert forall|k: int| 0 <= k < self.layers@.len() && k != l as int
                implies (#[trigger] self.layers@[k]).st() == f[k] by {}
            lemma_states_update(self.layers@, f, s1, l as int);
        }
        self.backward_sweep(input);
    }

    /// One mean parameter update on every layer: each consumes its
    /// accumulated gradients, scaled by the learning rate and divided by
    /// `mean_value`.
    #[verifier::rlimit(100)]
    fn apply_updates(&mut self, mean_value: T, learning_rate: T)
        requires
            old(self).wf(),
        ensures
            final(self).wf(),
            final(self).same_config(*old(self)),
            final(self).layers@.len() == old(self).layers@.len(),
            final(self).layers@[old(self).nb_layer - 1].len == old(self).layers@[old(
                self,
            ).nb_layer - 1].len,
            net_states(final(self).layers@) == spec_apply_updates(
                old(self).ops.subf,
                old(self).ops.mulf,
                old(self).ops.divf,
                net_states(old(self).layers@),
                learning_rate,
                mean_value,
            ),
    {
        proof {
            reveal(ops_ok);
        }
        let ops = self.ops;
        let ghost target = spec_apply_updates(
            ops.subf,
            ops.mulf,
            ops.divf,
            net_states(self.layers@),
            learning_rate,
            mean_value,
        );
        let mut li: usize = 0;
        while li < self.nb_layer
            invariant
                li <= self.nb_layer,
                self.layers_wf(),
                bin_ok(ops.subf),
                bin_ok(ops.mulf),
                bin_ok(ops.divf),
                self.nb_layer == old(self).nb_layer,
                self.input_size == old(self).input_size,
                self.cost == old(self).cost,
                self.ops == old(self).ops,
                ops == old(self).ops,
                self.layers@.len() == old(self).layers@.len(),
                target == spec_apply_updates(
                    ops.subf,
                    ops.mulf,
                    ops.divf,
                    net_states(old(self).layers@),
                    learning_rate,
                    mean_value,
                ),
                forall|k: int| 0 <= k < li ==> (#[trigger] self.layers@[k]).st() == target[k],
                forall|k: int|
                    li <= k < self.layers@.len() ==> self.layers@[k] == old(self).layers@[k],
            decreases self.nb_layer - li,
        {
            proof {
                reveal(ops_ok);
            }
            self.layers[li].update_parameters(mean_value, learning_rate, ops.subf, ops.mulf, ops.divf);
            proof {
                assert(self.layers@[li as int].st() =~= target[li as int]);
            }
            li += 1;
        }
        proof {
            assert(net_states(self.layers@) =~= target);
        }
    }

    /// Accumulate the gradients of every sample of one mini-batch in
    /// order, then apply one mean parameter update per layer.
    #[verifier::rlimit(50)]
    fn update_minibatch(&mut self, data: &[(Vec<T>, Vec<T>)], learning_rate: T)
        requires
            old(self).wf(),
            old(self).nb_layer >= 2,
            old(self).input_size != 0,
            forall|q: int|
                0 <= q < data@.len() ==> (#[trigger] data@[q]).0@.len() == old(self).input_size,
            forall|q: int|
                0 <= q < data@.len() ==> (#[trigger] data@[q]).1@.len() == old(self).layers@[old(
                    self,
                ).nb_layer - 1].len,
        ensures
            final(self).wf(),
            final(self).same_config(*old(self)),
            final(self).layers@.len() == old(self).layers@.len(),
            final(self).layers@[old(self).nb_layer - 1].len == old(self).layers@[old(
                self,
            ).nb_layer - 1].len,
            net_states(final(self).layers@) == Self::spec_update_minibatch(
                old(self).ops,
                old(self).cost,
                net_states(old(self).layers@),
                data@,
                learning_rate,
            ),
    {
        proof {
            reveal(ops_ok);
        }
        let ops = self.ops;
        let ghost states0 = net_states(self.layers@);
        let n = data.len();
        let mut s: usize = 0;
        proof {
            reveal(spec_minibatch_samples);
        }
        while s < n
            invariant
                s <= n,
                n == data@.len(),
                self.wf(),
                self.nb_layer == old(self).nb_layer,
                self.nb_layer >= 2,
                self.input_size == old(self).input_size,
                self.cost == old(self).cost,
                self.ops == old(self).ops,
                ops == old(self).ops,
                self.layers@.len() == old(self).layers@.len(),
                states0 == net_states(old(self).layers@),
                old(self).input_size != 0,
                self.layers@[old(self).nb_layer - 1].len == old(self).layers@[old(
                    self,
                ).nb_layer - 1].len,
                forall|q: int|
                    0 <= q < data@.len() ==> (#[trigger] data@[q]).0@.len() == old(
                        self,
                    ).input_size,
                forall|q: int|
                    0 <= q < data@.len() ==> (#[trigger] data@[q]).1@.len() == old(
                        self,
                    ).layers@[old(self).nb_layer - 1].len,
                net_states(self.layers@) == spec_minibatch_samples(
                    ops.addf,
                    ops.mulf,
                    ops.actf,
                    ops.actdf,
                    ops.costdf,
                    ops.zero,
                    old(self).cost,
                    states0,
                    data@,
                    s as int,
                ),
            decreases n - s,
        {
            proof {
                reveal(ops_ok);
            }
            let pair = &data[s];
            self.train_sample(&pair.0, &pair.1);
            proof {
                reveal(spec_minibatch_samples);
            }
            s += 1;
        }
        let mean = (ops.cntf)(n);
        proof {
            lemma_un_val(ops.cntf, n, mean);
        }
        self.apply_updates(mean, learning_rate);
    }

    /// Reset every layer's gradient accumulators to the zero, as happens
    /// at the start of every mini-batch.
    #[verifier::rlimit(100)]
    fn zero_grads(&mut self)
        requires
            old(self).wf(),
        ensures
            final(self).wf(),
            final(self).same_config(*old(self)),
            final(self).layers@.len() == old(self).layers@.len(),
            final(self).layers@[old(self).nb_layer - 1].len == old(self).layers@[old(
                self,
            ).nb_layer - 1].len,
            net_states(final(self).layers@) == spec_zero_grads(
                net_states(old(self).layers@),
                old(self).ops.zero,
            ),
    {
        let ops = self.ops;
        let ghost target = spec_zero_grads(net_states(self.layers@), ops.zero);
        let mut li: usize = 0;
        while li < self.nb_layer
            invariant
                li <= self.nb_layer,
                self.layers_wf(),
                self.nb_layer == old(self).nb_layer,
                self.input_size == old(self).input_size,
                self.cost == old(self).cost,
                self.ops == old(self).ops,
                ops == old(self).ops,
                self.layers@.len() == old(self).layers@.len(),
                target == spec_zero_grads(net_states(old(self).layers@), ops.zero),
                forall|k: int| 0 <= k < li ==> (#[trigger] self.layers@[k]).st() == target[k],
                forall|k: int|
                    li <= k < self.layers@.len() ==> self.layers@[k] == old(self).layers@[k],
            decreases self.nb_layer - li,
        {
            self.layers[li].grad_w.zero(ops.zero);
            self.layers[li].grad_b.zero(ops.zero);
            proof {
                assert(self.layers@[li as int].grad_w.m().vals =~= target[li as int].gw.vals);
                assert(self.layers@[li as int].grad_w.m() =~= target[li as int].gw);
                assert(self.layers@[li as int].grad_b.m().vals =~= target[li as int].gb.vals);
                assert(self.layers@[li as int].grad_b.m() =~= target[li as int].gb);
                assert(self.layers@[li as int].st() =~= target[li as int]);
            }
            li += 1;
        }
        proof {
            assert(net_states(self.layers@) =~= target);
        }
    }

    /// One mini-batch of one epoch: zero every gradient accumulator, run
    /// the batch's gradient accumulation and parameter update, then one
    /// forward pass on the batch's first sample.
    #[verifier::rlimit(100)]
    fn run_chunk(&mut self, data: &[(Vec<T>, Vec<T>)], start: usize, end: usize, learning_rate: T)
        requires
            old(self).wf(),
            old(self).nb_layer >= 2,
            old(self).input_size != 0,
            start < end <= data@.len(),
            forall|q: int|
                0 <= q < data@.len() ==> (#[trigger] data@[q]).0@.len() == old(self).input_size,
            forall|q: int|
                0 <= q < data@.len() ==> (#[trigger] data@[q]).1@.len() == old(self).layers@[old(
                    self,
                ).nb_layer - 1].len,
        ensures
            final(self).wf(),
            final(self).same_config(*old(self)),
            final(self).layers@.len() == old(self).layers@.len(),
            final(self).layers@[old(self).nb_layer - 1].len == old(self).layers@[old(
                self,
            ).nb_layer - 1].len,
            net_states(final(self).layers@) == spec_forward(
                old(self).ops.addf,
                old(self).ops.mulf,
                old(self).ops.actf,
                old(self).ops.zero,
                Self::spec_update_minibatch(
                    old(self).ops,
                    old(self).cost,
                    spec_zero_grads(net_states(old(self).layers@), old(self).ops.zero),
                    data@.subrange(start as int, end as int),
                    learning_rate,
                ),
                data@[start as int].0@,
            ),
    {
        self.zero_grads();
        let chunk = &data[start..end];
        self.update_minibatch(chunk, learning_rate);
        self.input(&chunk[0].0);
    }

    /// Train the network: for each epoch, partition the (caller-shuffled)
    /// dataset into contiguous mini-batches of `mini_batch_size` samples,
    /// accumulate and apply each batch's gradients, and record the
    /// representative cost of the leading samples; once at least three
    /// epochs are recorded and the newest cost exceeds the previous one,
    /// the learning rate is halved.
    #[verifier::rlimit(100)]
    pub fn train(
        &mut self,
        data: &[(Vec<T>, Vec<T>)],
        mini_batch_size: usize,
        epochs: usize,
        learning_rate: T,
    )
        requires
            old(self).wf(),
            old(self).nb_layer >= 2,
            old(self).input_size != 0,
            mini_batch_size >= 1,
            forall|q: int|
                0 <= q < data@.len() ==> (#[trigger] data@[q]).0@.len() == old(self).input_size,
            forall|q: int|
                0 <= q < data@.len() ==> (#[trigger] data@[q]).1@.len() == old(self).layers@[old(
                    self,
                ).nb_layer - 1].len,
        ensures
            final(self).wf(),
            final(self).same_config(*old(self)),
            final(self).layers@.len() == old(self).layers@.len(),
            net_states(final(self).layers@) == spec_train_epochs(
                old(self).ops,
                old(self).cost,
                mini_batch_size,
                data@,
                net_states(old(self).layers@),
                learning_rate,
                epochs as int,
            ).0,
    {
        proof {
            reveal(ops_ok);
        }
        let ops = self.ops;
        let ghost kind = self.cost;
        let ghost states_init = net_states(self.layers@);
        let mut lr = learning_rate;
        let mut costs: Vec<T> = Vec::new();
        let mut e: usize = 0;
        proof {
            reveal(spec_train_epochs);
        }
        while e < epochs
            invariant
                e <= epochs,
                self.wf(),
                self.nb_layer == old(self).nb_layer,
                self.nb_layer >= 2,
                self.input_size == old(self).input_size,
                self.cost == old(self).cost,
                self.ops == old(self).ops,
                ops == old(self).ops,
                kind == old(self).cost,
                self.layers@.len() == old(self).layers@.len(),
                states_init == net_states(old(self).layers@),
                old(self).input_size != 0,
                mini_batch_size >= 1,
                self.layers@[old(self).nb_layer - 1].len == old(self).layers@[old(
                    self,
                ).nb_layer - 1].len,
                forall|q: int|
                    0 <= q < data@.len() ==> (#[trigger] data@[q]).0@.len() == old(
                        self,
                    ).input_size,
                forall|q: int|
                    0 <= q < data@.len() ==> (#[trigger] data@[q]).1@.len() == old(
                        self,
                    ).layers@[old(self).nb_layer - 1].len,
                ({
                    let ts = spec_train_epochs(
                        ops,
                        kind,
                        mini_batch_size,
                        data@,
                        states_init,
                        learning_rate,
                        e as int,
                    );
                    net_states(self.layers@) == ts.0 && lr == ts.1 && costs@ == ts.2
                }),
            decreases epochs - e,
        {
            proof {
                reveal(ops_ok);
            }
            let ghost ep_states = net_states(self.layers@);
            let ghost ep_lr = lr;
            let mut start: usize = 0;
            let mut cidx: usize = 0;
            proof {
                reveal(spec_chunks);
            }
            while start < data.len()
                invariant
                    start <= data@.len(),
                    self.wf(),
                    self.nb_layer == old(self).nb_layer,
                    self.nb_layer >= 2,
                    self.input_size == old(self).input_size,
                    self.cost == old(self).cost,
                    self.ops == old(self).ops,
                    ops == old(self).ops,
                    kind == old(self).cost,
                    self.layers@.len() == old(self).layers@.len(),
                    old(self).input_size != 0,
                    mini_batch_size >= 1,
                    lr == ep_lr,
                    self.layers@[old(self).nb_layer - 1].len == old(self).layers@[old(
                        self,
                    ).nb_layer - 1].len,
                    forall|q: int|
                        0 <= q < data@.len() ==> (#[trigger] data@[q]).0@.len() == old(
                            self,
                        ).input_size,
                    forall|q: int|
                        0 <= q < data@.len() ==> (#[trigger] data@[q]).1@.len() == old(
                            self,
                        ).layers@[old(self).nb_layer - 1].len,
                    start as int == (if cidx as int * (mini_batch_size as int)
                        <= data@.len() as int {
                        cidx as int * (mini_batch_size as int)
                    } else {
                        data@.len() as int
                    }),
                    cidx >= 1 ==> (cidx as int - 1) * (mini_batch_size as int)
                        < data@.len() as int,
                    net_states(self.layers@) == spec_chunks(
                        ops,
                        kind,
                        ep_states,
                        data@,
                        mini_batch_size,
                        ep_lr,
                        cidx as int,
                    ),
                decreases data@.len() - start,
            {
                let end = if data.len() - start < mini_batch_size {
                    data.len()
                } else {
                    start + mini_batch_size
                };
                proof {
                    assert((cidx as int + 1) * (mini_batch_size as int) == cidx as int * (
                    mini_batch_size as int) + mini_batch_size as int) by (nonlinear_arith);
                }
                self.run_chunk(data, start, end, lr);
                proof {
                    reveal(spec_chunks);
                    assert(cidx as int <= cidx as int * (mini_batch_size as int))
                        by (nonlinear_arith)
                        requires
                            mini_batch_size >= 1,
                            cidx >= 0,
                    ;
                }
                start = end;
                cidx += 1;
            }
            proof {
                let mbs = mini_batch_size as int;
                let len = data@.len() as int;
                if len == 0 {
                    assert(spec_chunk_count(len, mbs) == 0) by {
                        assert((mbs - 1) / mbs == 0) by (nonlinear_arith)
                            requires
                                mbs >= 1,
                        ;
                    }
                } else {
                    let r = len - (cidx as int - 1) * mbs;
                    assert(cidx as int * mbs == (cidx as int - 1) * mbs + mbs)
                        by (nonlinear_arith);
                    assert(len + mbs - 1 == cidx as int * mbs + (r - 1));
                    lemma_fundamental_div_mod_converse(
                        len + mbs - 1,
                        mbs,
                        cidx as int,
                        r - 1,
                    );
                    assert(spec_chunk_count(len, mbs) == cidx as int);
                }
            }
            let cd_end = if mini_batch_size <= data.len() {
                mini_batch_size
            } else {
                data.len()
            };
            let c = self.batch_cost(&data[0..cd_end]);
            costs.push(c);
            if costs.len() >= 3 {
                let prevc = costs[costs.len() - 2];
                let g = (ops.gtf)(c, prevc);
                proof {
                    lemma_bin_val(ops.gtf, c, prevc, g);
                }
                if g {
                    let two = (ops.cntf)(2);
                    let lr2 = (ops.divf)(lr, two);
                    proof {
                        lemma_un_val(ops.cntf, 2, two);
                        lemma_bin_val(ops.divf, lr, two, lr2);
                    }
                    lr = lr2;
                }
            }
            proof {
                reveal(spec_train_epochs);
            }
            e += 1;
        }
    }
}

} // verus!
