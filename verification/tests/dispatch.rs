use std::cell::RefCell;
use std::rc::Rc;

use ethers::types::{Filter, FilterBlockOption, Log, ValueOrArray, H256, U256};
use vinyl::block::BlockRecord;
use vinyl::hash::BlockHash;
use vinyl::query::LogQuery;
use vinyl::registry::{EventHandler, HandlerRegistry};
use vinyl::sync::VinylSync;

type Journal = Rc<RefCell<Vec<(&'static str, Log)>>>;

struct Recorder {
    name: &'static str,
    journal: Journal,
}

impl EventHandler for Recorder {
    fn handle(&self, raw_log: &Log) {
        self.journal.borrow_mut().push((self.name, raw_log.clone()));
    }
}

fn recorder(name: &'static str, journal: &Journal) -> Box<dyn EventHandler> {
    Box::new(Recorder { name, journal: journal.clone() })
}

fn log(index: u64) -> Log {
    let mut log = Log::default();
    log.log_index = Some(U256::from(index));
    log
}

const SYNC: &str = "Sync(uint112,uint112)";
const TRANSFER: &str = "Transfer(address,address,uint256)";

#[test]
fn logs_reach_the_handler_in_their_order() {
    let journal: Journal = Rc::new(RefCell::new(Vec::new()));
    let mut sync: VinylSync<Box<dyn EventHandler>> = VinylSync::new();
    sync.add_handler(SYNC, recorder("sync", &journal));
    let logs = vec![log(0), log(1), log(2)];
    assert_eq!(sync.dispatch(SYNC, &logs), 3);
    assert_eq!(*journal.borrow(), vec![("sync", log(0)), ("sync", log(1)), ("sync", log(2))]);
}

#[test]
fn second_registration_replaces_the_first() {
    let journal: Journal = Rc::new(RefCell::new(Vec::new()));
    let mut sync: VinylSync<Box<dyn EventHandler>> = VinylSync::new();
    sync.add_handler(SYNC, recorder("first", &journal));
    sync.add_handler(TRANSFER, recorder("other", &journal));
    sync.add_handler(SYNC, recorder("second", &journal));
    assert_eq!(sync.handlers().len(), 2);
    assert_eq!(sync.handlers().signature(0), Some(SYNC));
    assert_eq!(sync.handlers().signature(1), Some(TRANSFER));
    assert_eq!(sync.handlers().signature(2), None);
    assert_eq!(sync.dispatch(SYNC, &vec![log(7), log(8)]), 2);
    assert_eq!(*journal.borrow(), vec![("second", log(7)), ("second", log(8))]);
}

#[test]
fn logs_go_to_the_handler_of_their_signature_only() {
    let journal: Journal = Rc::new(RefCell::new(Vec::new()));
    let mut registry: HandlerRegistry<Box<dyn EventHandler>> = HandlerRegistry::new();
    registry.add_handler(SYNC, recorder("sync", &journal));
    registry.add_handler(TRANSFER, recorder("transfer", &journal));
    assert_eq!(registry.dispatch(TRANSFER, &vec![log(4)]), 1);
    assert_eq!(registry.dispatch(SYNC, &vec![log(5)]), 1);
    assert_eq!(*journal.borrow(), vec![("transfer", log(4)), ("sync", log(5))]);
    registry.handler(SYNC).unwrap().handle(&log(6));
    assert_eq!(journal.borrow().last(), Some(&("sync", log(6))));
}

#[test]
fn no_logs_no_calls() {
    let journal: Journal = Rc::new(RefCell::new(Vec::new()));
    let mut sync: VinylSync<Box<dyn EventHandler>> = VinylSync::new();
    sync.add_handler(SYNC, recorder("sync", &journal));
    assert_eq!(sync.dispatch(SYNC, &vec![]), 0);
    assert!(journal.borrow().is_empty());
}

#[test]
fn logs_for_an_unregistered_signature_are_dropped() {
    let journal: Journal = Rc::new(RefCell::new(Vec::new()));
    let mut sync: VinylSync<Box<dyn EventHandler>> = VinylSync::new();
    sync.add_handler(SYNC, recorder("sync", &journal));
    assert_eq!(sync.dispatch(TRANSFER, &vec![log(1), log(2)]), 0);
    assert!(journal.borrow().is_empty());
    assert!(sync.handlers().handler(TRANSFER).is_none());
    assert!(sync.handlers().handler(SYNC).is_some());
}

#[test]
fn empty_registry_has_no_queries() {
    let registry: HandlerRegistry<Box<dyn EventHandler>> = HandlerRegistry::new();
    assert_eq!(registry.len(), 0);
    assert!(registry.log_queries(&BlockHash::new(1, 2)).is_empty());
    assert_eq!(registry.dispatch(SYNC, &vec![log(1)]), 0);
}

#[test]
fn one_query_for_each_registered_signature() {
    let journal: Journal = Rc::new(RefCell::new(Vec::new()));
    let mut sync: VinylSync<Box<dyn EventHandler>> = VinylSync::new();
    sync.add_handler(SYNC, recorder("sync", &journal));
    sync.add_handler(TRANSFER, recorder("transfer", &journal));
    sync.add_handler(SYNC, recorder("sync again", &journal));
    let block = BlockRecord::new(BlockHash::new(7, 9), 100, BlockHash::new(7, 8));
    let queries = sync.log_queries(&block);
    assert_eq!(queries.len(), 2);
    assert_eq!(queries[0].signature, SYNC);
    assert_eq!(queries[1].signature, TRANSFER);
    let at = H256::from(block.hash.to_bytes());
    assert_eq!(queries[0].filter, Filter::new().at_block_hash(at).event(SYNC));
    assert_eq!(queries[1].filter, Filter::new().at_block_hash(at).event(TRANSFER));
    assert!(journal.borrow().is_empty());
}

#[test]
fn query_selects_the_block_and_the_event() {
    let block_hash = BlockHash::new(0x0102030405060708090a0b0c0d0e0f10, 0x1112131415161718191a1b1c1d1e1f20);
    let query = LogQuery::for_event(&block_hash, TRANSFER);
    assert_eq!(query.signature, TRANSFER);
    let at: H256 =
        "0x0102030405060708090a0b0c0d0e0f101112131415161718191a1b1c1d1e1f20".parse().unwrap();
    assert_eq!(query.filter.block_option, FilterBlockOption::AtBlockHash(at));
    let topic: H256 =
        "0xddf252ad1be2c89b69c2b068fc378daa952ba7f163c4a11628f55a4df523b3ef".parse().unwrap();
    assert_eq!(query.filter.topics[0], Some(ValueOrArray::Value(Some(topic))));
    assert_eq!(query.filter.topics[1], None);
    assert_eq!(query.filter.topics[2], None);
    assert_eq!(query.filter.topics[3], None);
    assert_eq!(query.filter.address, None);
}
