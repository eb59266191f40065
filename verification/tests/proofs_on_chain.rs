use libwallet::error::ErrorKind;
use libwallet::group::{Point, Scalar};
use libwallet::keychain::{Identifier, Keychain};
use libwallet::payment_proof::{verify_tx_proof, ProofVerdict, TxProof};
use libwallet::transaction::Transaction;
use libwallet::tx::slate_at_height;
use libwallet::wallet::{ChainOutput, FeeSchedule, NodeClient, Wallet};

struct Chain {
    height: Option<u64>,
    kernel: Option<(Point, u64)>,
}

impl NodeClient for Chain {
    fn get_chain_height(&self) -> Result<u64, ErrorKind> {
        self.height.ok_or(ErrorKind::NodeUnavailable)
    }

    fn get_outputs_from_node(&self, _commits: &Vec<Point>) -> Result<Vec<ChainOutput>, ErrorKind> {
        Ok(Vec::new())
    }

    fn post_tx(&self, _tx: &Transaction, _fluff: bool) -> Result<(), ErrorKind> {
        Ok(())
    }

    fn get_kernel_height(&self, excess: &Point) -> Result<Option<u64>, ErrorKind> {
        if self.height.is_none() {
            return Err(ErrorKind::GenericError("no answer".to_string()));
        }
        Ok(self.kernel.filter(|k| k.0 == *excess).map(|k| k.1))
    }
}

fn wallet(chain: Chain) -> Wallet<Chain> {
    Wallet::new(
        chain,
        Keychain::from_seed(1),
        Identifier::new(2, 0, 0, 0, 0),
        FeeSchedule { base_fee: 1, output_fee: 0 },
    )
}

fn sound() -> TxProof {
    let mut slate = slate_at_height(9, 0, 1, 1);
    let mut key = Scalar::new(42);
    slate.fill_round_1(&mut key, &Scalar::new(50), 0, None, Scalar::new(0)).unwrap();
    slate.tx.body.outputs.push(libwallet::transaction::Output {
        features: libwallet::transaction::OutputFeatures::Plain,
        commit: Point::commit(0, Scalar::new(42)),
    });
    slate.fill_round_2(&key, &Scalar::new(50), 0).unwrap();
    slate.finalize().unwrap();
    TxProof::from_slate(&slate).unwrap()
}

#[test]
fn a_proof_is_confirmed_by_the_depth_of_its_kernel() {
    let p = sound();
    let w = wallet(Chain { height: Some(20), kernel: Some((p.excess, 15)) });
    assert_eq!(verify_tx_proof(&w, &p), Ok(ProofVerdict::Confirmed { confirmations: 6 }));
}

#[test]
fn a_sound_proof_of_an_unknown_kernel_is_unconfirmed() {
    let p = sound();
    let w = wallet(Chain { height: Some(20), kernel: None });
    assert_eq!(verify_tx_proof(&w, &p), Ok(ProofVerdict::Unconfirmed));
    let w = wallet(Chain { height: Some(20), kernel: Some((Point { v: 1 }, 15)) });
    assert_eq!(verify_tx_proof(&w, &p), Ok(ProofVerdict::Unconfirmed));
}

#[test]
fn a_forged_proof_is_invalid_whatever_the_chain_shows() {
    let mut p = sound();
    p.fee = 1;
    let w = wallet(Chain { height: Some(20), kernel: Some((p.excess, 15)) });
    assert_eq!(verify_tx_proof(&w, &p), Ok(ProofVerdict::Invalid));
    // the node is not even asked
    let w = wallet(Chain { height: None, kernel: None });
    assert_eq!(verify_tx_proof(&w, &p), Ok(ProofVerdict::Invalid));
}

#[test]
fn a_sound_proof_cannot_be_judged_without_the_node() {
    let w = wallet(Chain { height: None, kernel: None });
    assert_eq!(verify_tx_proof(&w, &sound()), Err(ErrorKind::NodeUnavailable));
}
