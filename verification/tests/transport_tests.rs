use overlay_server::assembler::{Assembler, AssemblerStatus, InsertFragmentError, RetrieveError};
use overlay_server::assemblers_manager::AssemblersManager;
use overlay_server::fragment_manager::{FragmentManager, ToBeSentFragment};
use overlay_server::fragmenter::Fragmenter;
use overlay_server::packet::{Fragment, FRAGMENT_DSIZE};
use overlay_server::specialized_behavior::AssembledResponse;

fn fragment(index: u64, total: u64, length: u8, fill: u8) -> Fragment {
    Fragment { fragment_index: index, total_n_fragments: total, length, data: [fill; 128] }
}

fn message(len: usize) -> Vec<u8> {
    (0..len).map(|i| (i * 7 + 3) as u8).collect()
}

#[test]
fn frame_size_is_128() {
    assert_eq!(FRAGMENT_DSIZE, 128);
}

#[test]
fn new_assembler_has_all_slots_empty() {
    let assembler = Assembler::new(4);
    assert_eq!(assembler.capacity(), 4);
    assert_eq!(assembler.fragments_left(), 4);
    assert!(!assembler.is_complete());
    assert!(!assembler.has_fragment(0));
    assert!(!assembler.has_fragment(4));
    assert_eq!(assembler.retrieve_assembled(), Err(RetrieveError::Incomplete));
}

#[test]
fn assembler_without_slots_is_complete() {
    let mut assembler = Assembler::new(0);
    assert!(assembler.is_complete());
    assert_eq!(
        assembler.insert_fragment(fragment(0, 0, 0, 1)),
        Err(InsertFragmentError::IndexOutOfBounds)
    );
    assert_eq!(assembler.retrieve_assembled(), Ok(Vec::new()));
}

#[test]
fn assembler_insert_reports_completion() {
    let mut assembler = Assembler::new(2);
    assert_eq!(assembler.insert_fragment(fragment(1, 2, 5, 9)), Ok(AssemblerStatus::Incomplete));
    assert_eq!(assembler.fragments_left(), 1);
    assert!(assembler.has_fragment(1));
    assert_eq!(assembler.insert_fragment(fragment(0, 2, 128, 4)), Ok(AssemblerStatus::Complete));
    assert_eq!(assembler.fragments_left(), 0);
    assert!(assembler.is_complete());
    let mut expected = vec![4u8; 128];
    expected.extend_from_slice(&[9u8; 5]);
    assert_eq!(assembler.retrieve_assembled(), Ok(expected));
}

#[test]
fn assembler_rejects_wrong_total_before_wrong_index() {
    let mut assembler = Assembler::new(3);
    assert_eq!(
        assembler.insert_fragment(fragment(7, 4, 1, 0)),
        Err(InsertFragmentError::CapacityDoesNotMatch)
    );
    assert_eq!(
        assembler.insert_fragment(fragment(3, 3, 1, 0)),
        Err(InsertFragmentError::IndexOutOfBounds)
    );
    assert_eq!(
        assembler.insert_fragment(fragment(u64::MAX, 3, 1, 0)),
        Err(InsertFragmentError::IndexOutOfBounds)
    );
    assert_eq!(assembler.fragments_left(), 3);
}

#[test]
fn duplicate_fragment_does_not_change_remaining() {
    let mut assembler = Assembler::new(3);
    assert_eq!(assembler.insert_fragment(fragment(1, 3, 128, 1)), Ok(AssemblerStatus::Incomplete));
    assert_eq!(assembler.fragments_left(), 2);
    assert_eq!(assembler.insert_fragment(fragment(1, 3, 128, 2)), Ok(AssemblerStatus::Incomplete));
    assert_eq!(assembler.fragments_left(), 2);
    assert_eq!(assembler.insert_fragment(fragment(0, 3, 128, 3)), Ok(AssemblerStatus::Incomplete));
    assert_eq!(assembler.insert_fragment(fragment(2, 3, 1, 4)), Ok(AssemblerStatus::Complete));
    assert_eq!(assembler.insert_fragment(fragment(2, 3, 2, 5)), Ok(AssemblerStatus::Complete));
    assert_eq!(assembler.fragments_left(), 0);
    // the later copy replaced the earlier one
    let mut expected = vec![3u8; 128];
    expected.extend_from_slice(&[2u8; 128]);
    expected.extend_from_slice(&[5u8; 2]);
    assert_eq!(assembler.retrieve_assembled(), Ok(expected));
}

#[test]
fn last_block_is_cut_at_its_length() {
    for (length, kept) in [(0u8, 0usize), (1, 1), (127, 127), (128, 128), (129, 128), (255, 128)] {
        let mut assembler = Assembler::new(2);
        assert_eq!(
            assembler.insert_fragment(fragment(0, 2, 3, 6)),
            Ok(AssemblerStatus::Incomplete)
        );
        assert_eq!(
            assembler.insert_fragment(fragment(1, 2, length, 8)),
            Ok(AssemblerStatus::Complete)
        );
        let bytes = assembler.retrieve_assembled().expect("complete");
        // (total - 1) * frame size + length of the last
        assert_eq!(bytes.len(), 128 + kept);
        assert!(bytes[..128].iter().all(|b| *b == 6));
        assert!(bytes[128..].iter().all(|b| *b == 8));
    }
}

#[test]
fn reassembly_capacity_rejection() {
    let mut manager = AssemblersManager::new();
    assert_eq!(manager.insert_fragment(fragment(0, 4, 128, 1), 77), Ok(AssemblerStatus::Incomplete));
    assert_eq!(
        manager.insert_fragment(fragment(1, 5, 128, 2), 77),
        Err(InsertFragmentError::CapacityDoesNotMatch)
    );
    assert!(manager.has_fragment(77, 0));
    assert!(!manager.has_fragment(77, 1));
    assert_eq!(manager.retrieve_assembled(77), Err(RetrieveError::Incomplete));
    assert!(manager.has_fragment(77, 0));
}

#[test]
fn manager_retrieve_unknown_and_incomplete() {
    let mut manager = AssemblersManager::new();
    assert!(!manager.has_session(1));
    assert_eq!(manager.retrieve_assembled(1), Err(RetrieveError::UnknownSessionId));
    assert_eq!(manager.insert_fragment(fragment(1, 2, 128, 1), 1), Ok(AssemblerStatus::Incomplete));
    assert!(manager.has_session(1));
    assert_eq!(manager.retrieve_assembled(1), Err(RetrieveError::Incomplete));
    assert_eq!(manager.insert_fragment(fragment(0, 2, 128, 2), 1), Ok(AssemblerStatus::Complete));
    let bytes = manager.retrieve_assembled(1).expect("complete");
    assert_eq!(bytes.len(), 256);
    assert!(!manager.has_session(1));
    assert_eq!(manager.retrieve_assembled(1), Err(RetrieveError::UnknownSessionId));
}

#[test]
fn manager_creates_the_slots_even_for_a_refused_first_fragment() {
    let mut manager = AssemblersManager::new();
    assert_eq!(
        manager.insert_fragment(fragment(9, 3, 128, 1), 5),
        Err(InsertFragmentError::IndexOutOfBounds)
    );
    assert!(manager.has_session(5));
    assert_eq!(manager.retrieve_assembled(5), Err(RetrieveError::Incomplete));
    assert_eq!(
        manager.insert_fragment(fragment(0, 2, 128, 1), 5),
        Err(InsertFragmentError::CapacityDoesNotMatch)
    );
}

#[test]
fn manager_keeps_sessions_apart() {
    let mut manager = AssemblersManager::new();
    assert_eq!(manager.insert_fragment(fragment(0, 1, 2, 1), 10), Ok(AssemblerStatus::Complete));
    assert_eq!(manager.insert_fragment(fragment(0, 2, 2, 2), 11), Ok(AssemblerStatus::Incomplete));
    assert_eq!(manager.retrieve_assembled(10), Ok(vec![1, 1]));
    assert!(manager.has_fragment(11, 0));
    assert!(!manager.has_fragment(11, 1));
    assert!(!manager.has_fragment(11, 2));
}

#[test]
fn fragmenter_sessions_start_at_one_and_grow_by_one() {
    let mut fragmenter = Fragmenter::new();
    assert_eq!(fragmenter.session_id(), 1);
    let first = fragmenter.to_fragment_vec(AssembledResponse { data: message(300), dest: 4 });
    let second = fragmenter.to_fragment_vec(AssembledResponse { data: message(10), dest: 5 });
    assert_eq!(first.len(), 3);
    assert_eq!(second.len(), 1);
    assert!(first.iter().all(|r| r.session_id == 1 && r.dest == 4));
    assert!(second.iter().all(|r| r.session_id == 2 && r.dest == 5));
    assert_eq!(fragmenter.session_id(), 3);
}

#[test]
fn empty_payload_gives_no_fragment_and_takes_no_session() {
    let mut fragmenter = Fragmenter::new();
    let none = fragmenter.to_fragment_vec(AssembledResponse { data: Vec::new(), dest: 9 });
    assert!(none.is_empty());
    assert_eq!(fragmenter.session_id(), 1);
    let one = fragmenter.to_fragment_vec(AssembledResponse { data: vec![1], dest: 9 });
    assert_eq!(one.len(), 1);
    assert_eq!(one[0].session_id, 1);
    assert_eq!(fragmenter.session_id(), 2);
}

#[test]
fn fragment_fields_exact_values() {
    let mut fragmenter = Fragmenter::new();
    let data = message(300);
    let records = fragmenter.to_fragment_vec(AssembledResponse { data: data.clone(), dest: 1 });
    assert_eq!(records.len(), 3);
    for (i, record) in records.iter().enumerate() {
        assert_eq!(record.fragment.fragment_index, i as u64);
        assert_eq!(record.fragment.total_n_fragments, 3);
    }
    assert_eq!(records[0].fragment.length, 128);
    assert_eq!(records[1].fragment.length, 128);
    assert_eq!(records[2].fragment.length, 44);
    assert_eq!(&records[0].fragment.data[..], &data[0..128]);
    assert_eq!(&records[1].fragment.data[..], &data[128..256]);
    assert_eq!(&records[2].fragment.data[..44], &data[256..300]);
    assert!(records[2].fragment.data[44..].iter().all(|b| *b == 0));
}

#[test]
fn fragment_counts_at_the_block_boundaries() {
    for (len, count, last) in
        [(1usize, 1usize, 1u8), (127, 1, 127), (128, 1, 128), (129, 2, 1), (256, 2, 128), (257, 3, 1)]
    {
        let mut fragmenter = Fragmenter::new();
        let records = fragmenter.to_fragment_vec(AssembledResponse { data: message(len), dest: 1 });
        assert_eq!(records.len(), count);
        assert_eq!(records[count - 1].fragment.length, last);
    }
}

#[test]
fn fragment_round_trip() {
    for len in [0usize, 1, 5, 127, 128, 129, 255, 256, 257, 1000, 4096] {
        let data = message(len);
        let mut fragmenter = Fragmenter::new();
        let records = fragmenter.to_fragment_vec(AssembledResponse { data: data.clone(), dest: 1 });
        let mut assembler = Assembler::new(records.len() as u64);
        // arrival in reverse order, each fragment twice
        for record in records.iter().rev() {
            assert!(assembler.insert_fragment(record.fragment).is_ok());
            assert!(assembler.insert_fragment(record.fragment).is_ok());
        }
        assert!(assembler.is_complete());
        assert_eq!(assembler.retrieve_assembled(), Ok(data));
    }
}

fn record(session_id: u64, index: u64, dest: u8) -> ToBeSentFragment {
    ToBeSentFragment { dest, session_id, fragment: fragment(index, 9, 128, index as u8) }
}

#[test]
fn fragment_manager_is_first_in_first_out() {
    let mut manager = FragmentManager::new();
    assert_eq!(manager.get_next(), None);
    manager.insert_bulk(vec![record(1, 0, 3), record(1, 1, 3), record(2, 0, 4)]);
    assert_eq!(manager.pending(), 3);
    assert_eq!(manager.cached(), 3);
    assert_eq!(manager.get_next(), Some(record(1, 0, 3)));
    assert_eq!(manager.get_next(), Some(record(1, 1, 3)));
    manager.insert_fragment(record(2, 1, 4));
    assert_eq!(manager.get_next(), Some(record(2, 0, 4)));
    assert_eq!(manager.get_next(), Some(record(2, 1, 4)));
    assert_eq!(manager.get_next(), None);
    assert_eq!(manager.cached(), 4);
}

#[test]
fn fragment_manager_replays_from_cache() {
    let mut manager = FragmentManager::new();
    manager.insert_fragment(record(5, 2, 1));
    assert_eq!(manager.get_next(), Some(record(5, 2, 1)));
    assert_eq!(manager.insert_from_cache((5, 2)), Ok(()));
    assert_eq!(manager.insert_from_cache((5, 2)), Ok(()));
    assert_eq!(manager.pending(), 2);
    assert_eq!(manager.get_next(), Some(record(5, 2, 1)));
    assert_eq!(manager.get_next(), Some(record(5, 2, 1)));
    assert_eq!(manager.insert_from_cache((5, 3)), Err("Requested fragment is not in cache"));
    assert_eq!(manager.insert_from_cache((2, 5)), Err("Requested fragment is not in cache"));
    assert_eq!(manager.pending(), 0);
}

#[test]
fn ack_then_nack_is_a_no_op() {
    let mut manager = FragmentManager::new();
    manager.insert_fragment(record(1, 0, 1));
    manager.insert_fragment(record(1, 1, 1));
    assert_eq!(manager.get_next(), Some(record(1, 0, 1)));
    assert_eq!(manager.get_next(), Some(record(1, 1, 1)));
    manager.remove_from_cache((1, 0));
    assert!(!manager.is_cached((1, 0)));
    assert!(manager.is_cached((1, 1)));
    assert_eq!(manager.insert_from_cache((1, 0)), Err("Requested fragment is not in cache"));
    assert_eq!(manager.pending(), 0);
    assert_eq!(manager.cached(), 1);
    // removing again changes nothing
    manager.remove_from_cache((1, 0));
    assert_eq!(manager.cached(), 1);
}

#[test]
fn cache_keys_keep_session_and_index_apart() {
    let mut manager = FragmentManager::new();
    manager.insert_fragment(record(0, 1, 1));
    manager.insert_fragment(record(1, 0, 2));
    manager.insert_fragment(record(u64::MAX, u64::MAX, 3));
    manager.insert_fragment(record(u64::MAX, 0, 4));
    manager.insert_fragment(record(0, u64::MAX, 5));
    assert_eq!(manager.cached(), 5);
    manager.remove_from_cache((0, 1));
    assert!(manager.is_cached((1, 0)));
    assert!(!manager.is_cached((0, 1)));
    manager.remove_from_cache((u64::MAX, 0));
    assert!(manager.is_cached((0, u64::MAX)));
    assert!(manager.is_cached((u64::MAX, u64::MAX)));
    assert_eq!(manager.cached(), 3);
}

#[test]
fn cache_is_empty_once_everything_is_acknowledged() {
    let mut fragmenter = Fragmenter::new();
    let mut manager = FragmentManager::new();
    let first = fragmenter.to_fragment_vec(AssembledResponse { data: message(600), dest: 1 });
    let second = fragmenter.to_fragment_vec(AssembledResponse { data: message(129), dest: 2 });
    let mut keys = Vec::new();
    for r in first.iter().chain(second.iter()) {
        keys.push((r.session_id, r.fragment.fragment_index));
    }
    manager.insert_bulk(first);
    manager.insert_bulk(second);
    assert_eq!(manager.cached(), 7);
    for key in keys.iter().rev() {
        manager.remove_from_cache(*key);
        manager.remove_from_cache(*key);
    }
    assert_eq!(manager.cached(), 0);
    assert_eq!(manager.pending(), 7);
}

#[test]
fn later_fragment_replaces_the_cached_one_under_the_same_key() {
    let mut manager = FragmentManager::new();
    manager.insert_fragment(record(3, 3, 1));
    manager.insert_fragment(record(3, 3, 2));
    assert_eq!(manager.cached(), 1);
    assert_eq!(manager.get_next(), Some(record(3, 3, 1)));
    assert_eq!(manager.get_next(), Some(record(3, 3, 2)));
    assert_eq!(manager.insert_from_cache((3, 3)), Ok(()));
    assert_eq!(manager.get_next(), Some(record(3, 3, 2)));
}
