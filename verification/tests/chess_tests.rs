use deepq::chess::{replay_uci, uci_from_san};
use deepq::error::Error;
use deepq::model::GameId;

fn sans(v: &[&str]) -> Vec<String> {
    v.iter().map(|s| s.to_string()).collect()
}

#[test]
fn san_translates_to_uci() {
    let ucis = uci_from_san(&sans(&["e4", "e5", "Nf3", "Nc6"])).unwrap();
    assert_eq!(ucis, vec!["e2e4", "e7e5", "g1f3", "b8c6"]);
}

#[test]
fn san_round_trip_is_identity() {
    let ucis = uci_from_san(&sans(&["e4", "e5", "Nf3", "Nc6", "Bb5", "a6"])).unwrap();
    // re-parsing the emitted UCI replays the same legal game
    assert!(replay_uci(&ucis).is_some());
}

#[test]
fn castling_emits_standard_uci() {
    let ucis = uci_from_san(&sans(&["e4", "e5", "Nf3", "Nc6", "Bc4", "Bc5", "O-O"])).unwrap();
    assert_eq!(ucis.last().unwrap(), "e1g1");
    assert!(replay_uci(&ucis).is_some());
}

#[test]
fn illegal_move_rejects_whole_line() {
    assert!(matches!(
        uci_from_san(&sans(&["e4", "e4"])),
        Err(Error::InvalidMoves)
    ));
    // ambiguous or unparsable moves fail too
    assert!(matches!(
        uci_from_san(&sans(&["xyzzy"])),
        Err(Error::InvalidMoves)
    ));
}

#[test]
fn empty_line_is_fine() {
    let ucis = uci_from_san(&Vec::new()).unwrap();
    assert!(ucis.is_empty());
    assert!(replay_uci(&ucis).is_some());
}

#[test]
fn replay_rejects_illegal_uci() {
    assert!(replay_uci(&sans(&["e2e5"])).is_none());
}

#[test]
fn game_ids_normalize_to_lowercase() {
    let id = GameId("AbCdEf01".to_string());
    assert_eq!(id.normalized().0, "abcdef01");
    let lower = GameId("abcdef01".to_string());
    assert_eq!(lower.normalized().0, "abcdef01");
}
