use codecrafters_bittorrent::peer_manager::piece_manager::piece_selector::PieceSelector;

const A: [u8; 20] = [1; 20];
const B: [u8; 20] = [2; 20];
const C: [u8; 20] = [3; 20];

fn three_peers() -> PieceSelector {
    let mut selector = PieceSelector::new(vec![false; 4]);
    selector.add_peer(A);
    selector.add_peer(B);
    selector.add_peer(C);
    selector.add_bitfield(&A, vec![true, true, true, false]);
    selector.add_bitfield(&B, vec![true, true, false, false]);
    selector.add_bitfield(&C, vec![false, true, true, false]);
    selector
}

#[test]
fn rarity_tie_break() {
    let mut selector = three_peers();
    assert_eq!(selector.piece_rarity(), &vec![2, 3, 2, 0]);
    // Piece 3 is never chosen: nobody has it. Piece 0 comes before piece 2, which is
    // as rare, and piece 1 comes last.
    assert_eq!(selector.select_pieces_for_peer(&A, 4), Some(vec![0, 2, 1]));
    assert_eq!(selector.select_pieces_for_peer(&A, 4), None);
}

#[test]
fn rarity_tie_break_one_at_a_time() {
    let mut selector = three_peers();
    assert_eq!(selector.select_pieces_for_peer(&A, 1), Some(vec![0]));
    assert_eq!(selector.select_pieces_for_peer(&A, 1), Some(vec![2]));
    assert_eq!(selector.select_pieces_for_peer(&A, 1), Some(vec![1]));
    assert_eq!(selector.select_pieces_for_peer(&A, 1), None);
}

#[test]
fn a_new_selector_knows_nothing() {
    let mut selector = PieceSelector::new(vec![false, true, false]);
    assert_eq!(selector.n_pieces(), 3);
    assert_eq!(selector.have(), &vec![false, true, false]);
    assert_eq!(selector.piece_rarity(), &vec![0, 0, 0]);
    assert!(!selector.is_in_flight(0));
    assert!(!selector.is_in_flight(3));
    assert_eq!(selector.get_peer_has(&A), None);
    assert_eq!(selector.select_pieces_for_peer(&A, 5), None);
    let mut none = PieceSelector::new(vec![]);
    none.add_peer(A);
    none.add_bitfield(&A, vec![true; 8]);
    assert_eq!(none.select_pieces_for_peer(&A, 5), None);
}

#[test]
fn add_peer_is_idempotent() {
    let mut selector = PieceSelector::new(vec![false; 3]);
    selector.add_peer(A);
    assert_eq!(selector.get_peer_has(&A), Some(&vec![]));
    selector.add_bitfield(&A, vec![true, false, true]);
    selector.add_peer(A);
    assert_eq!(selector.get_peer_has(&A), Some(&vec![true, false, true]));
    assert_eq!(selector.piece_rarity(), &vec![1, 0, 1]);
}

#[test]
fn bitfield_of_an_unknown_peer_is_dropped() {
    let mut selector = PieceSelector::new(vec![false; 3]);
    selector.add_bitfield(&A, vec![true, true, true]);
    selector.update_have(&A, 0);
    selector.remove_peer(&A);
    assert_eq!(selector.piece_rarity(), &vec![0, 0, 0]);
    assert_eq!(selector.get_peer_has(&A), None);
}

#[test]
fn bitfield_is_cut_or_filled_to_the_pieces() {
    let mut selector = PieceSelector::new(vec![false; 3]);
    selector.add_peer(A);
    selector.add_peer(B);
    // Eight bits come off the wire for three pieces.
    selector.add_bitfield(&A, vec![true, false, true, false, false, true, true, true]);
    assert_eq!(selector.get_peer_has(&A), Some(&vec![true, false, true]));
    selector.add_bitfield(&B, vec![true]);
    assert_eq!(selector.get_peer_has(&B), Some(&vec![true, false, false]));
    assert_eq!(selector.piece_rarity(), &vec![2, 0, 1]);
}

#[test]
fn rarity_counts_the_peers_that_offer_what_we_lack() {
    // We have piece 1.
    let mut selector = PieceSelector::new(vec![false, true, false, false]);
    selector.add_peer(A);
    selector.add_peer(B);
    selector.add_bitfield(&A, vec![true, true, true, false]);
    assert_eq!(selector.piece_rarity(), &vec![1, 0, 1, 0]);
    selector.add_bitfield(&B, vec![true, true, false, true]);
    assert_eq!(selector.piece_rarity(), &vec![2, 0, 1, 1]);
    selector.update_have(&B, 2);
    assert_eq!(selector.piece_rarity(), &vec![2, 0, 2, 1]);
    assert_eq!(selector.get_peer_has(&B), Some(&vec![true, true, true, true]));
    // A piece that we have is not counted.
    selector.update_have(&A, 1);
    assert_eq!(selector.piece_rarity(), &vec![2, 0, 2, 1]);
    // A piece that the torrent does not have is passed over.
    selector.update_have(&A, 4);
    assert_eq!(selector.piece_rarity(), &vec![2, 0, 2, 1]);
    // We get piece 0.
    selector.mark_have(0);
    assert_eq!(selector.piece_rarity(), &vec![0, 0, 2, 1]);
    assert_eq!(selector.have(), &vec![true, true, false, false]);
    selector.remove_peer(&A);
    assert_eq!(selector.piece_rarity(), &vec![0, 0, 1, 1]);
    selector.remove_peer(&B);
    assert_eq!(selector.piece_rarity(), &vec![0, 0, 0, 0]);
    selector.remove_peer(&B);
    assert_eq!(selector.piece_rarity(), &vec![0, 0, 0, 0]);
}

#[test]
fn a_later_bitfield_takes_the_place_of_the_first() {
    let mut selector = PieceSelector::new(vec![false; 3]);
    selector.add_peer(A);
    selector.add_bitfield(&A, vec![true, true, false]);
    assert_eq!(selector.piece_rarity(), &vec![1, 1, 0]);
    selector.add_bitfield(&A, vec![false, true, true]);
    assert_eq!(selector.piece_rarity(), &vec![0, 1, 1]);
    assert_eq!(selector.get_peer_has(&A), Some(&vec![false, true, true]));
    // Piece 0 is no longer on offer.
    assert_eq!(selector.select_pieces_for_peer(&A, 3), Some(vec![1, 2]));
}

#[test]
fn have_before_any_bitfield_makes_one() {
    let mut selector = PieceSelector::new(vec![false; 3]);
    selector.add_peer(A);
    selector.update_have(&A, 2);
    assert_eq!(selector.get_peer_has(&A), Some(&vec![false, false, true]));
    assert_eq!(selector.piece_rarity(), &vec![0, 0, 1]);
    assert_eq!(selector.select_pieces_for_peer(&A, 3), Some(vec![2]));
}

#[test]
fn the_same_have_twice_is_counted_twice() {
    let mut selector = PieceSelector::new(vec![false; 2]);
    selector.add_peer(A);
    selector.update_have(&A, 0);
    selector.update_have(&A, 0);
    assert_eq!(selector.piece_rarity(), &vec![2, 0]);
}

#[test]
fn no_piece_is_chosen_twice_while_it_is_downloaded() {
    let mut selector = three_peers();
    let first = selector.select_pieces_for_peer(&B, 1).unwrap();
    assert_eq!(first, vec![0]);
    assert!(selector.is_in_flight(0));
    // Whatever happens in between, piece 0 is not chosen again, for no peer.
    selector.update_have(&C, 0);
    selector.add_bitfield(&A, vec![true, true, true, true]);
    let second = selector.select_pieces_for_peer(&A, 4).unwrap();
    assert!(!second.contains(&0));
    assert_eq!(selector.select_pieces_for_peer(&C, 4), None);
    let third = selector.select_pieces_for_peer(&B, 4);
    assert_eq!(third, None);
    // Once this client has the piece and the piece has left the queue, nobody offers it.
    selector.mark_have(0);
    selector.release(0);
    assert!(!selector.is_in_flight(0));
    selector.update_have(&B, 0);
    assert_eq!(selector.select_pieces_for_peer(&B, 4), None);
}

#[test]
fn entries_that_are_taken_and_not_chosen_are_dropped() {
    let mut selector = PieceSelector::new(vec![false; 2]);
    selector.add_peer(A);
    selector.add_peer(B);
    selector.add_bitfield(&A, vec![true, false]);
    // B has nothing: the entry of piece 0 is taken from the queue and dropped.
    assert_eq!(selector.select_pieces_for_peer(&B, 1), None);
    assert_eq!(selector.select_pieces_for_peer(&A, 1), None);
    // A new entry comes with the next change of the rarity.
    selector.add_bitfield(&B, vec![true, false]);
    assert_eq!(selector.piece_rarity(), &vec![2, 0]);
    assert_eq!(selector.select_pieces_for_peer(&A, 1), Some(vec![0]));
}

#[test]
fn choosing_stops_at_the_count() {
    let mut selector = PieceSelector::new(vec![false; 6]);
    selector.add_peer(A);
    selector.add_bitfield(&A, vec![true; 6]);
    assert_eq!(selector.select_pieces_for_peer(&A, 0), None);
    assert_eq!(selector.select_pieces_for_peer(&A, 2), Some(vec![0, 1]));
    assert_eq!(selector.select_pieces_for_peer(&A, 3), Some(vec![2, 3, 4]));
    assert_eq!(selector.select_pieces_for_peer(&A, 3), Some(vec![5]));
    assert_eq!(selector.select_pieces_for_peer(&A, 3), None);
}

#[test]
fn pieces_that_we_have_are_not_chosen() {
    let mut selector = PieceSelector::new(vec![true, false, true]);
    selector.add_peer(A);
    selector.add_bitfield(&A, vec![true, true, true]);
    assert_eq!(selector.piece_rarity(), &vec![0, 1, 0]);
    assert_eq!(selector.select_pieces_for_peer(&A, 3), Some(vec![1]));
}
