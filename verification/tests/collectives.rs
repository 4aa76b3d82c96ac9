//! Process groups, collective operations and sharding.
use rusttorch::distributed::collective::{evaluate, fail_all, share_out, Evaluation, Operation, ReduceOp, Request};
use rusttorch::distributed::group::{Frame, GroupOptions, Rendezvous, Timeout};
use rusttorch::distributed::payload::{frame_header, frame_length, swap_elements, Dtype, Payload};
use rusttorch::kind::Kind;
use rusttorch::names::NameMap;
use rusttorch::tensor::TensorSpec;
use rusttorch::distributed::record::{ConsolidatedCheckpoint, Consolidation, ShardedCheckpoint};
use rusttorch::distributed::replica::GroupIdentity;
use rusttorch::distributed::shard::{check_participation, chunk_size, cut, elements, part_bounds, valid_name, ParameterSpec};
use rusttorch::distributed::trainer::{order_names, ShardedTrainer};

const LIMIT: usize = 1024;

fn payload(values: &[f32]) -> Payload {
    let bytes = values.iter().flat_map(|v| v.to_le_bytes()).collect();
    Payload::capture(vec![values.len() as i64], Dtype::Float, bytes, LIMIT).unwrap()
}

fn request(operation: Operation, tensors: Vec<Payload>) -> Request {
    Request { sequence: 3, operation, error: None, tensors, bytes: vec![] }
}

fn options() -> GroupOptions {
    let mut options = GroupOptions::new("job");
    options.timeout = Timeout { seconds: 5, nanos: 0 };
    options
}

#[test]
fn payloads_are_checked_and_bounded() {
    assert!(Payload::capture(vec![2], Dtype::Float, vec![0; 4], LIMIT).is_err());
    assert!(Payload::capture(vec![2], Dtype::Float, vec![0; 8], 7).is_err());
    let a = payload(&[1.0, 2.0]);
    assert!(a.same_spec(&payload(&[3.0, 4.0])));
    assert!(!a.same_spec(&payload(&[3.0])));
    assert_eq!(a.copy(), a);
    assert_eq!(swap_elements(&vec![1, 2, 3, 4], 2), vec![2, 1, 4, 3]);
    assert_eq!(swap_elements(&swap_elements(&vec![1, 2, 3, 4], 4), 4), vec![1, 2, 3, 4]);
}

#[test]
fn frame_headers_survive() {
    for length in [0usize, 1, 255, 65_536] {
        assert_eq!(frame_length(&frame_header(length), 100_000).unwrap(), length);
    }
    assert!(frame_length(&frame_header(100_001), 100_000).is_err());
}

#[test]
fn gathers_answer_every_rank() {
    let requests = vec![
        request(Operation::AllGather, vec![payload(&[1.0])]),
        request(Operation::AllGather, vec![payload(&[2.0])]),
    ];
    match evaluate(&requests, 2, LIMIT).unwrap() {
        Evaluation::Responses(responses) => {
            assert_eq!(responses.len(), 2);
            for response in responses {
                assert_eq!(response.sequence, 3);
                assert!(response.error.is_none());
                assert_eq!(response.tensors, vec![payload(&[1.0]), payload(&[2.0])]);
            }
        },
        Evaluation::Reduction(_, _) => panic!("a gather is no reduction"),
    }
}

#[test]
fn exchanging_twice_restores_the_tensors() {
    let requests = vec![
        request(Operation::AllToAll, vec![payload(&[1.0]), payload(&[2.0])]),
        request(Operation::AllToAll, vec![payload(&[3.0]), payload(&[4.0])]),
    ];
    let Evaluation::Responses(first) = evaluate(&requests, 2, LIMIT).unwrap() else { panic!("responses") };
    assert_eq!(first[0].tensors, vec![payload(&[1.0]), payload(&[3.0])]);
    let back = first.into_iter().map(|r| request(Operation::AllToAll, r.tensors)).collect();
    let Evaluation::Responses(second) = evaluate(&back, 2, LIMIT).unwrap() else { panic!("responses") };
    assert_eq!(second[0].tensors, requests[0].tensors);
    assert_eq!(second[1].tensors, requests[1].tensors);
}

#[test]
fn reductions_are_handed_out() {
    let requests = vec![
        request(Operation::AllReduce(ReduceOp::Sum), vec![payload(&[1.0])]),
        request(Operation::AllReduce(ReduceOp::Sum), vec![payload(&[2.0])]),
    ];
    match evaluate(&requests, 2, LIMIT).unwrap() {
        Evaluation::Reduction(op, lists) => {
            assert_eq!(op, ReduceOp::Sum);
            assert_eq!(lists, vec![vec![payload(&[1.0]), payload(&[2.0])]]);
        },
        Evaluation::Responses(_) => panic!("a reduction was asked for"),
    }
    let responses = share_out(Operation::AllReduce(ReduceOp::Sum), 3, 2, &vec![payload(&[3.0])]);
    assert_eq!(responses[1].tensors, vec![payload(&[3.0])]);
}

#[test]
fn disagreeing_requests_are_refused() {
    let requests = vec![
        request(Operation::AllGather, vec![payload(&[1.0])]),
        request(Operation::Barrier, vec![]),
    ];
    assert!(evaluate(&requests, 2, LIMIT).is_err());
    let requests = vec![
        request(Operation::AllGather, vec![payload(&[1.0])]),
        request(Operation::AllGather, vec![payload(&[1.0, 2.0])]),
    ];
    assert!(evaluate(&requests, 2, LIMIT).is_err());
    let failed = fail_all(9, 2, "broken");
    assert_eq!(failed.len(), 2);
    assert_eq!(failed[1].sequence, 9);
    assert_eq!(failed[1].error.as_deref(), Some("broken"));
}

#[test]
fn groups_meet_and_fail_for_good() {
    assert!(Rendezvous::accept(0, options(), true).is_err());
    let mut host = Rendezvous::accept(2, options(), true).unwrap();
    assert_eq!(host.waiting(), 1);
    let guest = Rendezvous::connect(1, 2, options(), true).unwrap();
    let hello = guest.greeting("127.0.0.1:9");
    assert_eq!(hello.rank, 1);
    assert_eq!(hello.session, "job");
    assert_eq!(host.greet(Frame::Hello(hello)).unwrap(), (1, "127.0.0.1:9".to_string()));
    let mut group = host.finish().unwrap();
    assert_eq!((group.rank(), group.world_size(), group.session()), (0, 2, "job"));
    group.ready(true).unwrap();
    group.abort();
    assert!(group.is_failed());
    assert!(group.ready(true).is_err());
}

#[test]
fn every_rank_waits_for_those_it_does_not_call() {
    let mut host = Rendezvous::accept(3, options(), true).unwrap();
    assert_eq!(host.waiting(), 2);
    let highest = Rendezvous::connect(2, 3, options(), true).unwrap();
    host.greet(Frame::Hello(highest.greeting("b"))).unwrap();
    assert!(host.greet(Frame::Hello(highest.greeting("b"))).is_err());
    assert_eq!((host.waiting(), highest.waiting()), (1, 1));
    let middle = Rendezvous::connect(1, 3, options(), true).unwrap();
    assert_eq!(middle.waiting(), 0);
    let mut highest = highest;
    assert_eq!(highest.greet(Frame::Hello(middle.greeting("a"))).unwrap(), (1, "a".to_string()));
    assert_eq!(middle.finish().unwrap().rank(), 1);
    assert_eq!(highest.finish().unwrap().rank(), 2);
    assert!(host.finish().is_none());
}

#[test]
fn shards_cover_their_tensors() {
    assert_eq!(chunk_size(10, 4), 3);
    let bytes: Vec<u8> = (0..10).collect();
    let size = chunk_size(bytes.len(), 4);
    let joined: Vec<u8> = (0..4).flat_map(|rank| cut(&bytes, size, rank)).collect();
    assert_eq!(&joined[..10], &bytes[..]);
    assert_eq!(elements(&[2, 3]).unwrap(), 6);
    assert!(elements(&[-1]).is_err());
    valid_name("layer.weight").unwrap();
    assert!(valid_name("").is_err());
    check_participation(&vec![true]).unwrap();
    assert!(check_participation(&vec![true, false]).is_err());
    ShardedTrainer::check_place(0, 2, 0, 2).unwrap();
    assert!(ShardedTrainer::check_place(0, 2, 1, 2).is_err());
    assert!(order_names(&vec!["a".to_string(), "a".to_string()]).is_err());
    let here = GroupIdentity::new(0, 2, "job");
    here.check(&GroupIdentity::new(0, 2, "job")).unwrap();
    assert!(here.check(&GroupIdentity::new(0, 2, "other")).is_err());
}

#[test]
fn parts_follow_each_other() {
    let bounds: Vec<(usize, usize)> = (0..4).map(|rank| part_bounds(10, rank, 4).unwrap()).collect();
    assert_eq!(bounds, vec![(0, 3), (3, 3), (6, 3), (9, 1)]);
    assert_eq!(part_bounds(2, 3, 4).unwrap(), (2, 0));
    assert!(part_bounds(10, usize::MAX, 4).is_err());
}

fn whole() -> ConsolidatedCheckpoint<u8> {
    let mut weights = NameMap::new();
    weights.insert("w".to_string(), payload(&[1.0, 2.0, 3.0, 4.0, 5.0]));
    let parameters = vec![ParameterSpec { name: "w".to_string(), shape: vec![5], dtype: Dtype::Float }];
    ConsolidatedCheckpoint::new(Consolidation { parameters, weights, order: vec![] }, 9)
}

#[test]
fn resharding_restores_the_whole_record() {
    let full = whole();
    full.validate().unwrap();
    let shards: Vec<ShardedCheckpoint<u8>> = (0..2).map(|rank| full.shard(rank, 2, 7).unwrap()).collect();
    assert_eq!(shards[0].weights.get("w").unwrap().shape, vec![3]);
    assert!(full.shard(2, 2, 7).is_err());
    let kept = |shape: i64| {
        let mut specs = NameMap::new();
        specs.insert("w".to_string(), TensorSpec { shape: vec![shape], kind: Kind::Float });
        specs
    };
    let swapped: Vec<ShardedCheckpoint<u8>> = [1, 0].iter().map(|rank| full.shard(*rank, 2, 7).unwrap()).collect();
    let consolidation = ShardedCheckpoint::consolidate(&swapped, &vec![kept(3), kept(3)]).unwrap();
    assert_eq!(consolidation.order, vec![1, 0]);
    assert_eq!(consolidation.weights.get("w"), full.weights.get("w"));
    assert!(ShardedCheckpoint::consolidate(&shards, &vec![kept(3), kept(2)]).is_err());
    assert!(ShardedCheckpoint::consolidate(&shards, &vec![NameMap::new(), NameMap::new()]).is_err());
    let twice: Vec<ShardedCheckpoint<u8>> = (0..2).map(|_| full.shard(0, 2, 7).unwrap()).collect();
    assert!(ShardedCheckpoint::consolidate(&twice, &vec![kept(3), kept(3)]).is_err());
}
