use blockchain_rust::blockchain::block::Block;
use blockchain_rust::blockchain::merkle::{MerkleNode, MerkleTree};
use blockchain_rust::blockchain::transaction::{Transaction, VerifyOutcome};
use blockchain_rust::blockchain::txn::{TxnInput, TxnOutput};
use blockchain_rust::blockchain::wallet::Wallet;
use blockchain_rust::blockchain::BlockChain;
use blockchain_rust::network::node::{Action, Events, GenericMessage, GenericResponse, Node, Payload};
use blockchain_rust::network::Network;
use blockchain_rust::util::{
    be_u128, bytes_eq, handle_result, i32_to_le_bytes, le_bytes_of, Hashable, DIFFICULTY,
};

const KNOWN_ADDRESS: &str = "1HhTdhDwkAqTjMPKiQbcaQPW983Nvd6uRw";
const KNOWN_PKH: &str = "b728e200df4df182a567e2802830a9f4cfb21cca";
const BAD_CHECKSUM_ADDRESS: &str = "1HhTdhDwkAqTjMPKiQbcaQPW983NveatiH";

fn new_wallet() -> Wallet {
    Wallet::new().expect("random source")
}

fn simple_txn() -> Transaction {
    Transaction {
        id: vec![7],
        inputs: vec![TxnInput { id: vec![1, 2, 3], out: -1, signature: vec![9], public_key: vec![4, 5] }],
        outputs: vec![TxnOutput { value: 20, public_key_hash: vec![0xaa, 0xbb] }],
    }
}

/// A chain of a genesis block and five mined blocks, each block linked to
/// the previous one by its hash.
#[test]
fn test() {
    let alice = new_wallet();
    let mut blockchain = BlockChain::new(&alice.address, 1).unwrap();
    let mut last_hash = blockchain.last_hash.clone();
    for i in 1..=5 {
        let txn = Transaction::create_coinbase_txn(&alice.address).unwrap();
        let block = Block::create(vec![txn], i, last_hash.clone(), 1 + i as u128);
        assert_eq!(block.prev_hash, last_hash);
        assert_eq!(block.hash, block.hash());
        last_hash = block.hash.clone();
        blockchain.add_block(block);
    }
    assert_eq!(blockchain.length, 6);
    assert_eq!(blockchain.blocks.len(), 6);
    assert_eq!(blockchain.last_hash, last_hash);
    for i in 1..6 {
        assert_eq!(blockchain.blocks[i].prev_hash, blockchain.blocks[i - 1].hash);
    }
}

#[test]
fn handle_result_reports_errors_only() {
    let ok: Result<i32, String> = Ok(3);
    assert!(handle_result(ok, "op").is_none());
    let err: Result<i32, String> = Err("boom".to_string());
    assert_eq!(handle_result(err, "op"), Some(("op", "boom".to_string())));
}

#[test]
fn byte_encodings() {
    assert_eq!(i32_to_le_bytes(-1), vec![255, 255, 255, 255]);
    assert_eq!(i32_to_le_bytes(20), vec![20, 0, 0, 0]);
    assert_eq!(le_bytes_of(0x0102_0304, 8), vec![4, 3, 2, 1, 0, 0, 0, 0]);
    assert_eq!(be_u128(&[1, 2]), 0x0102);
    assert_eq!(be_u128(&[0xff; 16]), u128::MAX);
    assert!(bytes_eq(&[1, 2], &[1, 2]));
    assert!(!bytes_eq(&[1, 2], &[1, 3]));
    assert!(!bytes_eq(&[1], &[1, 2]));
}

#[test]
fn sha256_ripemd160_of_known_payload() {
    let hash = Wallet::generate_sha256_ripemd160_hash(&b"abc".to_vec());
    assert_eq!(hex::encode(hash), "bb1be98c142444d7a56aa3981c3942a978e4dc33");
}

#[test]
fn known_address_decodes_to_its_public_key_hash() {
    let address = KNOWN_ADDRESS.as_bytes().to_vec();
    assert_eq!(Wallet::check_address(&address), Some(true));
    assert!(Wallet::is_address_valid(&address));
    let pkh = Wallet::get_public_key_hash_from_address(&address);
    assert_eq!(hex::encode(&pkh), KNOWN_PKH);
    assert_eq!(Wallet::try_public_key_hash_from_address(&address), Some(pkh));
}

#[test]
fn address_with_wrong_checksum_is_invalid() {
    let address = BAD_CHECKSUM_ADDRESS.as_bytes().to_vec();
    assert_eq!(Wallet::check_address(&address), Some(false));
    assert!(!Wallet::is_address_valid(&address));
}

#[test]
fn undecodable_address_is_refused() {
    let not_base58 = b"0OIl".to_vec();
    assert_eq!(Wallet::check_address(&not_base58), None);
    assert_eq!(Wallet::try_public_key_hash_from_address(&not_base58), None);
    assert!(TxnOutput::try_new(5, &not_base58).is_none());
    let too_short = b"1".to_vec();
    assert_eq!(Wallet::check_address(&too_short), None);
}

#[test]
fn wallet_of_a_known_key_pair() {
    let mut secret = vec![0u8; 31];
    secret.push(1);
    let public = hex::decode("0279be667ef9dcbbac55a06295ce870b07029bfcdb2dce28d959f2815b16f81798").unwrap();
    let wallet = Wallet::from_key_pair(secret.clone(), public.clone());
    assert_eq!(wallet.private_key, secret);
    assert_eq!(wallet.public_key, public);
    assert_eq!(hex::encode(&wallet.public_key_hash), "751e76e8199196d454941c45d1b3a323f1433bd6");
    assert_eq!(wallet.address, b"1BgGZ9tcN4rm9KBzDn7KprQz87SZ26SAMH".to_vec());
    assert_eq!(wallet.full_hash[0], 0);
    assert_eq!(wallet.full_hash[1..21].to_vec(), wallet.public_key_hash);
    assert_eq!(wallet.full_hash[21..].to_vec(), wallet.checksum);
}

#[test]
fn new_wallet_address_round_trips() {
    let wallet = new_wallet();
    assert_eq!(wallet.private_key.len(), 32);
    assert_eq!(wallet.public_key.len(), 33);
    assert_eq!(wallet.public_key_hash.len(), 20);
    assert_eq!(wallet.checksum.len(), 4);
    assert_eq!(wallet.full_hash.len(), 25);
    assert_eq!(wallet.full_hash[0], 0);
    assert_eq!(Wallet::generate_sha256_ripemd160_hash(&wallet.public_key), wallet.public_key_hash);
    assert!(Wallet::is_address_valid(&wallet.address));
    assert_eq!(Wallet::get_public_key_hash_from_address(&wallet.address), wallet.public_key_hash);
    let data = wallet.data();
    assert_eq!(data.public_key_hash, wallet.public_key_hash);
}

#[test]
fn outputs_lock_and_inputs_unlock() {
    let wallet = new_wallet();
    let output = TxnOutput::new(12, &wallet.address);
    assert_eq!(output.value, 12);
    assert!(output.is_locked_with_key(&wallet.public_key_hash));
    assert!(!output.is_locked_with_key(&vec![0; 20]));
    let input = TxnInput { id: vec![], out: 0, signature: vec![], public_key: wallet.public_key.clone() };
    assert!(input.is_uses_key(&wallet.public_key_hash));
    let other = TxnOutput::try_new(3, &KNOWN_ADDRESS.as_bytes().to_vec()).unwrap();
    assert_eq!(hex::encode(&other.public_key_hash), KNOWN_PKH);
}

#[test]
fn input_output_and_transaction_encodings() {
    let txn = simple_txn();
    assert_eq!(txn.inputs[0].encode(), vec![1, 2, 3, 255, 255, 255, 255, 9, 4, 5]);
    assert_eq!(txn.outputs[0].encode(), vec![20, 0, 0, 0, 170, 187]);
    assert_eq!(
        hex::encode(txn.hash()),
        "ee040716cc18b0a3fcfbde0d09e30e0247fd6227c10eb512d77a2985f65e1512"
    );
}

#[test]
fn merkle_tree_over_odd_levels() {
    let three = MerkleTree::new(vec![b"x".to_vec(), b"y".to_vec(), b"z".to_vec()]);
    assert_eq!(
        hex::encode(&three.root.data),
        "94ee69041d6a31c76688b1da2c00896986f218040c9b41f7118de0b4ee80db98"
    );
    let five = MerkleTree::new(vec![b"a".to_vec(), b"b".to_vec(), b"c".to_vec(), b"d".to_vec(), b"e".to_vec()]);
    assert_eq!(
        hex::encode(&five.root.data),
        "dd14d0ba516bb654a3052b76f051db026f4e322d0be081468fab99440f9e7305"
    );
    let left = three.root.left.as_ref().unwrap();
    let right = three.root.right.as_ref().unwrap();
    let mut joined = left.data.clone();
    joined.extend(right.data.iter());
    assert_eq!(MerkleNode::new(None, None, &joined).data, three.root.data);
}

#[test]
fn block_of_three_transactions_is_mined() {
    let mut block = Block::new(vec![simple_txn(), simple_txn(), simple_txn()], 1, vec![7; 32], 3);
    block.mine();
    assert_eq!(block.hash, block.hash());
    assert!(be_u128(&block.hash[0..16]) < DIFFICULTY);
    let created = Block::create(vec![simple_txn(), simple_txn(), simple_txn()], 1, vec![7; 32], 3);
    assert_eq!(created.hash, block.hash);
    assert_eq!(created.nonce, block.nonce);
}

#[test]
fn merkle_tree_roots() {
    let one = MerkleTree::new(vec![b"x".to_vec()]);
    assert_eq!(
        hex::encode(&one.root.data),
        "51db5605b506660c95aa7275d79271fb6d4072b76be0b4036d53af9d68752233"
    );
    let pair = MerkleTree::new(vec![b"x".to_vec(), b"x".to_vec()]);
    assert_eq!(one.root.data, pair.root.data);
    let two = MerkleTree::new(vec![b"x".to_vec(), b"y".to_vec()]);
    assert_eq!(
        hex::encode(&two.root.data),
        "f150e8508bbbc8be5232a999a3af77b03f4430f86e7b59593476710a5acb0156"
    );
    let left = two.root.left.as_ref().unwrap();
    assert!(left.left.is_none() && left.right.is_none());
    let leaf = MerkleNode::new(None, None, &b"x".to_vec());
    assert_eq!(leaf.data, left.data);
}

#[test]
fn block_hash_and_mining() {
    let mut block = Block::new(vec![simple_txn()], 3, vec![1, 2], 42);
    assert_eq!(block.hash, vec![0; 32]);
    assert_eq!(block.nonce, 0);
    assert_eq!(block.difficulty, DIFFICULTY);
    block.nonce = 5;
    assert_eq!(
        hex::encode(block.hash()),
        "5b7a79d4cfa94a5ddbba8708dcbb7eee9ee5176512b81d1883f2ed2f659104a6"
    );
    block.mine();
    assert_eq!(block.nonce, 6);
    assert_eq!(
        hex::encode(&block.hash),
        "08d767c9233447e2d48527a04cf0226efca5e67c8743f8797f25b3b35609845d"
    );
    let created = Block::create(vec![simple_txn()], 3, vec![1, 2], 42);
    assert_eq!(created.nonce, 6);
    assert_eq!(created.hash, block.hash);
}

#[test]
fn coinbase_transaction() {
    let wallet = new_wallet();
    let coinbase = Transaction::create_coinbase_txn(&wallet.address).unwrap();
    assert!(coinbase.is_coinbase());
    assert_eq!(coinbase.inputs[0].public_key.len(), 24);
    assert_eq!(coinbase.outputs.len(), 1);
    assert_eq!(coinbase.outputs[0].value, 20);
    assert_eq!(coinbase.outputs[0].public_key_hash, wallet.public_key_hash);
    let fixed = Transaction::coinbase_with_data(&wallet.address, vec![1, 2, 3]);
    let mut body = fixed.duplicate();
    body.id = vec![];
    assert_eq!(fixed.id, body.hash());
    assert!(!simple_txn().is_coinbase());
}

#[test]
fn new_chain_and_placeholder() {
    let wallet = new_wallet();
    let chain = BlockChain::new(&wallet.address, 9).unwrap();
    assert_eq!(chain.length, 1);
    assert_eq!(chain.blocks.len(), 1);
    assert_eq!(chain.last_hash, chain.blocks[0].hash);
    assert_eq!(chain.blocks[0].hash, chain.blocks[0].hash());
    assert!(be_u128(&chain.blocks[0].hash[0..16]) < DIFFICULTY);
    assert_eq!(chain.blocks[0].index, 0);
    assert_eq!(chain.blocks[0].timestamp, 9);
    assert!(chain.blocks[0].prev_hash.is_empty());
    assert!(chain.blocks[0].transactions[0].is_coinbase());
    assert!(chain.is_well_formed());
    let empty = BlockChain::new_placeholder();
    assert_eq!(empty.length, 0);
    assert!(empty.blocks.is_empty());
    assert!(empty.is_well_formed());
    assert!(empty.find_unspent_txn_outputs().is_empty());
}

#[test]
fn find_transaction_by_id() {
    let wallet = new_wallet();
    let chain = BlockChain::new(&wallet.address, 1).unwrap();
    let id = chain.blocks[0].transactions[0].id.clone();
    assert_eq!(chain.find_transaction(&id).unwrap().id, id);
    assert_eq!(chain.find_transaction(&vec![1, 2, 3]).err(), Some("Transaction not found"));
}

#[test]
fn payment_moves_funds_and_verifies() {
    let alice = new_wallet();
    let bob = new_wallet();
    let mut node = Node::default("Node-0".to_string());
    assert!(node.create_blockchain(&alice.address, 1));
    assert_eq!(node.wallet_balance(&alice.public_key_hash), 20);
    assert_eq!(node.wallet_balance(&bob.public_key_hash), 0);
    let (acc, outputs) = node.blockchain.find_spendable_outputs(&alice.public_key_hash, 10);
    assert_eq!(acc, 20);
    assert_eq!(outputs.len(), 1);
    assert_eq!(outputs[0].1, vec![0]);
    let (block, sends) = node.make_transaction_and_mine(alice.address.clone(), bob.address.clone(), 10, &alice.data(), 2).unwrap();
    assert!(sends.is_empty());
    assert_eq!(node.blockchain.length, 2);
    assert_eq!(block.index, 1);
    assert_eq!(block.prev_hash, node.blockchain.blocks[0].hash);
    assert_eq!(node.blockchain.last_hash, block.hash);
    let txn = &block.transactions[0];
    assert_eq!(txn.inputs.len(), 1);
    assert_eq!(txn.outputs.len(), 2);
    assert_eq!(txn.outputs[0].value, 10);
    assert_eq!(txn.outputs[1].value, 10);
    assert_eq!(txn.inputs[0].signature.len(), 64);
    assert_eq!(node.wallet_balance(&alice.public_key_hash), 30);
    assert_eq!(node.wallet_balance(&bob.public_key_hash), 10);
    assert_eq!(node.try_wallet_balance(&bob.public_key_hash), Some(10));
    let unspent = node.blockchain.find_unspent_transactions(&alice.public_key_hash);
    assert_eq!(unspent.len(), 2);
    let mut signed = txn.duplicate();
    assert_eq!(node.blockchain.try_verify_transaction(&mut signed), Some(true));
    assert!(node.blockchain.verify_transaction(&mut signed));
    let prevs = vec![&node.blockchain.blocks[0].transactions[0]];
    assert_eq!(signed.verify(&prevs), Ok(true));
    signed.inputs[0].signature[0] ^= 1;
    let outcome = signed.try_verify(&prevs);
    assert!(outcome.is_none() || outcome == Some(Err("secp256k1 error")));
}

#[test]
fn not_enough_funds_is_refused() {
    let alice = new_wallet();
    let bob = new_wallet();
    let chain = BlockChain::new(&alice.address, 1).unwrap();
    assert!(!Transaction::new_ready(&alice.address, &bob.address, 50, &chain, &alice.data()));
    assert!(Transaction::try_new(&alice.address, &bob.address, 50, &chain, &alice.data()).is_none());
    let txn = Transaction::try_new(&alice.address, &bob.address, 20, &chain, &alice.data()).unwrap();
    assert_eq!(txn.outputs.len(), 1);
    assert_eq!(txn.outputs[0].value, 20);
}

#[test]
fn signing_needs_known_previous_transactions() {
    let wallet = new_wallet();
    let mut txn = simple_txn();
    txn.inputs[0].out = 0;
    let prevs: Vec<&Transaction> = vec![];
    assert_eq!(
        txn.sign(&wallet.private_key, &prevs),
        Err("The transaction is not present in the history".to_string())
    );
    assert_eq!(txn.verify(&prevs), Err("The transaction is not present in the history"));
    let coinbase = Transaction::create_coinbase_txn(&wallet.address).unwrap();
    let mut coinbase_copy = coinbase.duplicate();
    assert_eq!(coinbase_copy.sign(&wallet.private_key, &prevs), Ok(()));
    assert_eq!(coinbase_copy.verify(&prevs), Ok(true));
    assert!(txn.sign_ready(&wallet.private_key, &prevs));
}

#[test]
fn signed_single_input_verifies() {
    let wallet = new_wallet();
    let coinbase = Transaction::create_coinbase_txn(&wallet.address).unwrap();
    let prevs = vec![&coinbase];
    let mut txn = Transaction {
        id: vec![0; 32],
        inputs: vec![TxnInput { id: coinbase.id.clone(), out: 0, signature: vec![], public_key: wallet.public_key.clone() }],
        outputs: vec![TxnOutput::new(20, &wallet.address)],
    };
    txn.id = txn.hash();
    assert!(!txn.sign_ready(&vec![0; 32], &prevs));
    assert!(txn.try_sign(&vec![0; 32], &prevs).is_none());
    assert!(txn.sign_ready(&wallet.private_key, &prevs));
    assert_eq!(txn.sign(&wallet.private_key, &prevs), Ok(()));
    assert_eq!(txn.inputs[0].signature.len(), 64);
    assert_eq!(txn.verify(&prevs), Ok(true));
    let mut out_of_range = txn.duplicate();
    out_of_range.inputs[0].out = 3;
    assert!(out_of_range.try_verify(&prevs).is_none());
    assert!(out_of_range.try_sign(&wallet.private_key, &prevs).is_none());
    let _ = VerifyOutcome::Valid;
}

#[test]
fn signed_two_inputs_verify() {
    let wallet = new_wallet();
    let first = Transaction::create_coinbase_txn(&wallet.address).unwrap();
    let second = Transaction::create_coinbase_txn(&wallet.address).unwrap();
    let prevs = vec![&first, &second];
    let mut txn = Transaction {
        id: vec![0; 32],
        inputs: vec![
            TxnInput { id: first.id.clone(), out: 0, signature: vec![], public_key: wallet.public_key.clone() },
            TxnInput { id: second.id.clone(), out: 0, signature: vec![], public_key: wallet.public_key.clone() },
        ],
        outputs: vec![TxnOutput::new(40, &wallet.address)],
    };
    txn.id = txn.hash();
    assert_eq!(txn.sign(&wallet.private_key, &prevs), Ok(()));
    assert_eq!(txn.inputs[0].signature.len(), 64);
    assert_eq!(txn.inputs[1].signature.len(), 64);
    assert_eq!(txn.verify(&prevs), Ok(true));
    let mut tampered = txn.duplicate();
    tampered.inputs[0].signature[5] ^= 1;
    let outcome = tampered.try_verify(&prevs);
    assert!(outcome.is_none() || outcome == Some(Err("secp256k1 error")));
}

#[test]
fn new_transaction_with_two_inputs_verifies() {
    let alice = new_wallet();
    let bob = new_wallet();
    let mut chain = BlockChain::new(&alice.address, 1).unwrap();
    let reward = Transaction::create_coinbase_txn(&alice.address).unwrap();
    let block = Block::create(vec![reward], 1, chain.last_hash.clone(), 2);
    chain.add_block(block);
    let mut txn = Transaction::new(&alice.address, &bob.address, 30, &chain, &alice.data());
    assert_eq!(txn.inputs.len(), 2);
    assert!(txn.inputs.iter().all(|i| i.signature.len() == 64));
    assert_eq!(txn.outputs[0].value, 30);
    assert_eq!(txn.outputs[1].value, 10);
    assert_eq!(chain.try_verify_transaction(&mut txn), Some(true));
    assert!(chain.verify_transaction(&mut txn));
}

#[test]
fn memory_pool_collects_two_blocks_then_extends_chain() {
    let alice = new_wallet();
    let bob = new_wallet();
    let mut miner = Node::default("Node-0".to_string());
    assert!(miner.create_blockchain(&alice.address, 1));
    let mut follower = Node::default("Node-1".to_string());
    follower.blockchain = miner.blockchain.duplicate();
    miner.known_nodes = vec![1, 4];
    let (b1, sends) = miner.make_transaction_and_mine(alice.address.clone(), bob.address.clone(), 5, &alice.data(), 2).unwrap();
    assert_eq!(sends.len(), 2);
    for (send, peer) in sends.iter().zip([1u64, 4u64]) {
        match send {
            Action::SendBlock { to, block } => {
                assert_eq!(*to, peer);
                assert_eq!(block.hash, b1.hash);
                assert_eq!(block.hash, miner.blockchain.last_hash);
            },
            _ => panic!("expected a block"),
        }
    }
    let (b2, _) = miner.make_transaction_and_mine(alice.address.clone(), bob.address.clone(), 5, &alice.data(), 3).unwrap();
    assert!(follower.blockchain.pool_add_ready(&b1));
    follower.blockchain.add_block_to_memory_pool(b1.duplicate());
    assert_eq!(follower.blockchain.length, 1);
    assert_eq!(follower.blockchain.memory_pool.len(), 1);
    follower.blockchain.add_block_to_memory_pool(b2.duplicate());
    assert_eq!(follower.blockchain.length, 3);
    assert!(follower.blockchain.memory_pool.is_empty());
    assert_eq!(follower.blockchain.last_hash, b2.hash);
    assert_eq!(follower.blockchain.last_hash, miner.blockchain.last_hash);
}

#[test]
fn unrelated_block_is_not_pooled() {
    let alice = new_wallet();
    let mut chain = BlockChain::new(&alice.address, 5).unwrap();
    let block = Block::new(vec![simple_txn()], 7, vec![1], 6);
    chain.add_block_to_memory_pool(block);
    assert!(chain.memory_pool.is_empty());
    assert_eq!(chain.length, 1);
    chain.clear_memory_pool();
    assert_eq!(chain.length, 1);
}

#[test]
fn node_handles_messages() {
    let alice = new_wallet();
    let bob = new_wallet();
    let mut node = Node::default("Node-0".to_string());
    let (response, actions) = node.handle(
        GenericMessage(Payload::UpdateRoutingInfo { addresses: vec![0, 1, 2] }),
        0,
        0,
        None,
    );
    assert!(matches!(response, Ok(GenericResponse::OK)));
    assert_eq!(node.known_nodes, vec![1, 2]);
    assert!(matches!(actions[0], Action::Announce { event: Events::UpdatedRoutingInfo }));

    let (_, actions) = node.handle(GenericMessage(Payload::CreateBlockchain { address: alice.address.clone() }), 0, 1, None);
    assert_eq!(actions.len(), 3);
    assert!(matches!(actions[0], Action::SendBlockchain { to: 1, .. }));
    assert!(matches!(actions[2], Action::Announce { event: Events::CreatedBlockchain }));

    let (_, actions) = node.handle(
        GenericMessage(Payload::AddTransactionAndMine { from: alice.address.clone(), to: bob.address.clone(), amt: 10 }),
        0,
        2,
        Some(alice.data()),
    );
    assert_eq!(node.blockchain.length, 2);
    assert_eq!(actions.len(), 3);
    assert!(matches!(actions[0], Action::Announce { event: Events::MinedTransaction }));
    match &actions[1] {
        Action::SendBlock { to, block } => {
            assert_eq!(*to, 1);
            assert_eq!(block.hash, node.blockchain.last_hash);
        },
        _ => panic!("expected a block"),
    }

    let (_, actions) = node.handle(
        GenericMessage(Payload::PrintWalletBalance { public_key_hash: bob.public_key_hash.clone() }),
        0,
        3,
        None,
    );
    assert!(matches!(actions[0], Action::PrintBalance { balance: 10 }));

    let (_, actions) = node.handle(GenericMessage(Payload::UpdateBlockchainFromKnownNodes), 0, 3, None);
    assert!(matches!(actions[0], Action::RequestBlockchain { to: 1 }));

    let mut other = Node::default("Node-1".to_string());
    let (_, actions) = other.handle(
        GenericMessage(Payload::Blockchain { blockchain: node.blockchain.duplicate() }),
        1,
        4,
        None,
    );
    assert_eq!(other.blockchain.length, 2);
    assert!(matches!(actions[0], Action::AnnounceFresherBlockchain { old_length: 0, new_length: 2 }));
    let (_, actions) = other.handle(GenericMessage(Payload::Blockchain { blockchain: BlockChain::new_placeholder() }), 1, 5, None);
    assert!(actions.is_empty());
    assert_eq!(other.blockchain.length, 2);
}

#[test]
fn node_refuses_messages_that_cannot_be_handled() {
    let mut node = Node::default("Node-0".to_string());
    assert!(node.try_handle(GenericMessage(Payload::UpdateBlockchainFromKnownNodes), 0, 0, None).is_none());
    assert!(node
        .try_handle(GenericMessage(Payload::CreateBlockchain { address: b"0OIl".to_vec() }), 0, 0, None)
        .is_none());
    assert_eq!(node.blockchain.length, 0);
    let alice = new_wallet();
    assert!(node
        .try_handle(
            GenericMessage(Payload::AddTransactionAndMine { from: alice.address.clone(), to: alice.address.clone(), amt: 1 }),
            0,
            0,
            None,
        )
        .is_none());
    let handled = node.try_handle(GenericMessage(Payload::PrintInfo), 0, 0, None).unwrap();
    assert!(matches!(handled.1[0], Action::PrintInfo));
}

#[test]
fn network_collects_nodes() {
    let mut network = Network::new();
    network.add_node(Node::default("Node-0".to_string()));
    network.add_node(Node::default("Node-1".to_string()));
}
