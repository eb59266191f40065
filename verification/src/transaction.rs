//! Transactions: inputs, outputs and the kernel that summarises them.

use vstd::prelude::*;
use crate::aggsig::{Signature, challenge, compute_challenge, signature_valid, verify};
use crate::group::{Point, Scalar, point_add, point_of, point_sub, value_point};

verus! {

/// What kind of output a commitment is.
#[derive(Clone, Copy, PartialEq, Eq, Structural, Debug)]
pub enum OutputFeatures {
    Plain,
    Coinbase,
}

/// What kind of kernel a transaction has.
#[derive(Clone, Copy, PartialEq, Eq, Structural, Debug)]
pub enum KernelFeatures {
    Plain,
    Coinbase,
    HeightLocked,
}

/// A reference to the output that a transaction spends.
#[derive(Clone, Copy, PartialEq, Eq, Structural, Debug)]
pub struct Input {
    pub features: OutputFeatures,
    pub commit: Point,
}

/// An output that a transaction creates.
#[derive(Clone, Copy, PartialEq, Eq, Structural, Debug)]
pub struct Output {
    pub features: OutputFeatures,
    pub commit: Point,
}

/// The public record of a transaction's net effect.
#[derive(Clone, Copy, PartialEq, Eq, Structural, Debug)]
pub struct TxKernel {
    pub features: KernelFeatures,
    pub fee: u64,
    pub lock_height: u64,
    pub excess: Point,
    pub excess_sig: Signature,
}

/// The inputs, outputs and kernels of a transaction.
#[derive(PartialEq, Eq, Debug)]
pub struct TransactionBody {
    pub inputs: Vec<Input>,
    pub outputs: Vec<Output>,
    pub kernels: Vec<TxKernel>,
}

/// A transaction: its body and the kernel offset.
#[derive(PartialEq, Eq, Debug)]
pub struct Transaction {
    /// The kernel offset.
    pub offset: Scalar,
    pub body: TransactionBody,
}

/// A transaction as a mathematical value.
pub struct TransactionView {
    pub offset: Scalar,
    pub inputs: Seq<Input>,
    pub outputs: Seq<Output>,
    pub kernels: Seq<TxKernel>,
}

impl View for Transaction {
    type V = TransactionView;

    open spec fn view(&self) -> TransactionView {
        TransactionView {
            offset: self.offset,
            inputs: self.body.inputs@,
            outputs: self.body.outputs@,
            kernels: self.body.kernels@,
        }
    }
}

/// The zero point.
pub open spec fn zero_point() -> Point {
    Point { v: 0 }
}

/// The sum of a sequence of points.
pub open spec fn sum_points(points: Seq<Point>) -> Point
    decreases points.len(),
{
    if points.len() == 0 {
        zero_point()
    } else {
        point_add(sum_points(points.drop_last()), points.last())
    }
}

/// The commitments of a sequence of inputs.
pub open spec fn input_commits(inputs: Seq<Input>) -> Seq<Point> {
    inputs.map_values(|i: Input| i.commit)
}

/// The commitments of a sequence of outputs.
pub open spec fn output_commits(outputs: Seq<Output>) -> Seq<Point> {
    outputs.map_values(|o: Output| o.commit)
}

/// The excess of a transaction that pays `fee`: the sum of its output
/// commitments, less the sum of its input commitments, plus the fee's value
/// point, less the public point of the kernel offset.
pub open spec fn excess_of(tx: TransactionView, fee: u64) -> Point {
    point_sub(
        point_add(
            point_sub(
                sum_points(output_commits(tx.outputs)),
                sum_points(input_commits(tx.inputs)),
            ),
            value_point(fee),
        ),
        point_of(tx.offset),
    )
}

/// Whether the signature of a kernel is valid for the kernel's excess, under
/// the challenge that the signature's nonce, the excess, the fee and the
/// lock height give.
pub open spec fn kernel_valid(k: TxKernel) -> bool {
    signature_valid(
        k.excess_sig,
        k.excess,
        challenge(k.excess_sig.nonce, k.excess, k.fee, k.lock_height),
    )
}

/// The kernel of a transaction that nobody has signed yet.
pub open spec fn blank_kernel() -> TxKernel {
    TxKernel {
        features: KernelFeatures::Plain,
        fee: 0,
        lock_height: 0,
        excess: zero_point(),
        excess_sig: Signature { nonce: zero_point(), s: Scalar { v: 0 } },
    }
}

/// The transaction without inputs and outputs, with a blank kernel.
pub open spec fn empty_transaction() -> TransactionView {
    TransactionView {
        offset: Scalar { v: 0 },
        inputs: Seq::empty(),
        outputs: Seq::empty(),
        kernels: seq![blank_kernel()],
    }
}

/// One more point adds to the sum.
pub proof fn lemma_sum_points_push(points: Seq<Point>, p: Point)
    ensures
        sum_points(points.push(p)) == point_add(sum_points(points), p),
{
    assert(points.push(p).drop_last() =~= points);
}

/// The sum of a list of points.
pub fn sum_of(points: &Vec<Point>) -> (sum: Point)
    ensures
        sum == sum_points(points@),
{
    let mut sum = Point { v: 0 };
    let mut i: usize = 0;
    while i < points.len()
        invariant
            i <= points.len(),
            sum == sum_points(points@.subrange(0, i as int)),
        decreases points.len() - i,
    {
        proof {
            assert(points@.subrange(0, i as int + 1) =~= points@.subrange(0, i as int).push(
                points@[i as int],
            ));
            lemma_sum_points_push(points@.subrange(0, i as int), points@[i as int]);
        }
        sum = sum.plus(points[i]);
        i = i + 1;
    }
    proof {
        assert(points@.subrange(0, i as int) =~= points@);
    }
    sum
}

impl TxKernel {
    /// Whether the signature of the kernel is valid for its excess.
    pub fn verify(&self) -> (ok: bool)
        ensures
            ok == kernel_valid(*self),
    {
        let e = compute_challenge(self.excess_sig.nonce, self.excess, self.fee, self.lock_height);
        verify(self.excess_sig, self.excess, e)
    }

    /// The kernel of a transaction that nobody has signed yet.
    pub fn blank() -> (k: TxKernel)
        ensures
            k == blank_kernel(),
    {
        TxKernel {
            features: KernelFeatures::Plain,
            fee: 0,
            lock_height: 0,
            excess: Point { v: 0 },
            excess_sig: Signature { nonce: Point { v: 0 }, s: Scalar { v: 0 } },
        }
    }
}

impl Input {
    /// The commitment of the output that the input spends.
    pub fn commitment(&self) -> (c: Point)
        ensures
            c == self.commit,
    {
        self.commit
    }
}

impl Output {
    /// The commitment of the output.
    pub fn commitment(&self) -> (c: Point)
        ensures
            c == self.commit,
    {
        self.commit
    }
}

impl Clone for Transaction {
    fn clone(&self) -> (tx: Transaction)
        ensures
            tx@ == self@,
    {
        let tx = Transaction {
            offset: self.offset,
            body: TransactionBody {
                inputs: self.body.inputs.clone(),
                outputs: self.body.outputs.clone(),
                kernels: self.body.kernels.clone(),
            },
        };
        assert(tx.body.inputs@ =~= self.body.inputs@);
        assert(tx.body.outputs@ =~= self.body.outputs@);
        assert(tx.body.kernels@ =~= self.body.kernels@);
        tx
    }
}

impl Transaction {
    /// The transaction without inputs and outputs, with a blank kernel.
    pub fn empty() -> (tx: Transaction)
        ensures
            tx@ == empty_transaction(),
    {
        let mut kernels: Vec<TxKernel> = Vec::new();
        kernels.push(TxKernel::blank());
        let tx = Transaction {
            offset: Scalar { v: 0 },
            body: TransactionBody { inputs: Vec::new(), outputs: Vec::new(), kernels },
        };
        assert(tx.body.kernels@ =~= seq![blank_kernel()]);
        tx
    }

    /// The inputs of the transaction.
    pub fn inputs(&self) -> (r: &Vec<Input>)
        ensures
            r@ == self@.inputs,
    {
        &self.body.inputs
    }

    /// The outputs of the transaction.
    pub fn outputs(&self) -> (r: &Vec<Output>)
        ensures
            r@ == self@.outputs,
    {
        &self.body.outputs
    }

    /// The kernels of the transaction.
    pub fn kernels(&self) -> (r: &Vec<TxKernel>)
        ensures
            r@ == self@.kernels,
    {
        &self.body.kernels
    }

    /// The sum of the input commitments.
    pub fn sum_inputs(&self) -> (sum: Point)
        ensures
            sum == sum_points(input_commits(self@.inputs)),
    {
        let mut sum = Point { v: 0 };
        let mut i: usize = 0;
        while i < self.body.inputs.len()
            invariant
                i <= self.body.inputs.len(),
                sum == sum_points(input_commits(self.body.inputs@.subrange(0, i as int))),
            decreases self.body.inputs.len() - i,
        {
            proof {
                let prefix = self.body.inputs@.subrange(0, i as int);
                let next = self.body.inputs@.subrange(0, i as int + 1);
                assert(input_commits(next) =~= input_commits(prefix).push(
                    self.body.inputs@[i as int].commit,
                ));
                lemma_sum_points_push(input_commits(prefix), self.body.inputs@[i as int].commit);
            }
            sum = sum.plus(self.body.inputs[i].commit);
            i = i + 1;
        }
        proof {
            assert(self.body.inputs@.subrange(0, i as int) =~= self.body.inputs@);
        }
        sum
    }

    /// The sum of the output commitments.
    pub fn sum_outputs(&self) -> (sum: Point)
        ensures
            sum == sum_points(output_commits(self@.outputs)),
    {
        let mut sum = Point { v: 0 };
        let mut i: usize = 0;
        while i < self.body.outputs.len()
            invariant
                i <= self.body.outputs.len(),
                sum == sum_points(output_commits(self.body.outputs@.subrange(0, i as int))),
            decreases self.body.outputs.len() - i,
        {
            proof {
                let prefix = self.body.outputs@.subrange(0, i as int);
                let next = self.body.outputs@.subrange(0, i as int + 1);
                assert(output_commits(next) =~= output_commits(prefix).push(
                    self.body.outputs@[i as int].commit,
                ));
                lemma_sum_points_push(output_commits(prefix), self.body.outputs@[i as int].commit);
            }
            sum = sum.plus(self.body.outputs[i].commit);
            i = i + 1;
        }
        proof {
            assert(self.body.outputs@.subrange(0, i as int) =~= self.body.outputs@);
        }
        sum
    }

    /// The excess of the transaction, given the fee that it pays.
    pub fn excess(&self, fee: u64) -> (e: Point)
        ensures
            e == excess_of(self@, fee),
    {
        let outs = self.sum_outputs();
        let ins = self.sum_inputs();
        outs.minus(ins).plus(Point::of_value(fee)).minus(self.offset.public())
    }
}

} // verus!
