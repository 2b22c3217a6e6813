use umpteenth_anion::action::Action;
use umpteenth_anion::coord::Coord;
use umpteenth_anion::dir::Dir;
use umpteenth_anion::io::{
    moves_message, parse_environment_lines, parse_i16, parse_state_line, parse_u64,
    ready_message, split_tokens, trim_right,
};

#[test]
fn trim_and_split() {
    assert_eq!(trim_right(&b"3 5  \r\n".to_vec()), b"3 5".to_vec());
    assert_eq!(trim_right(&b"".to_vec()), b"".to_vec());
    let toks = split_tokens(&b"12 7 x".to_vec());
    assert_eq!(toks, vec![b"12".to_vec(), b"7".to_vec(), b"x".to_vec()]);
    let empties = split_tokens(&b"a  b".to_vec());
    assert_eq!(empties.len(), 3);
    assert_eq!(empties[1], b"".to_vec());
}

#[test]
fn integer_parsing() {
    assert_eq!(parse_u64(&b"255".to_vec(), 255), Some(255));
    assert_eq!(parse_u64(&b"256".to_vec(), 255), None);
    assert_eq!(parse_u64(&b"".to_vec(), 255), None);
    assert_eq!(parse_u64(&b"1x".to_vec(), 255), None);
    assert_eq!(parse_i16(&b"-32768".to_vec()), Some(-32768));
    assert_eq!(parse_i16(&b"32767".to_vec()), Some(32767));
    assert_eq!(parse_i16(&b"32768".to_vec()), None);
    assert_eq!(parse_i16(&b"-0".to_vec()), Some(0));
}

#[test]
fn environment_parsing() {
    let l1 = b"2\n".to_vec();
    let l2 = b"3 5\n".to_vec();
    let l3 = b"0 1 2 3 4 5 6 7 8 9 10 11 12 13 14\n".to_vec();
    let env = parse_environment_lines(&l1, &l2, &l3).ok().unwrap();
    assert_eq!(env.my_tag, 2);
    assert_eq!(env.space.w, 3);
    assert_eq!(env.space.h, 5);
    assert_eq!(env.production_map.len(), 15);
    assert_eq!(env.production_map[14], 14);
}

#[test]
fn environment_parsing_takes_any_i16_production() {
    // Production has no protocol range: any decimal an i16 holds is kept.
    let l1 = b"1\n".to_vec();
    let l2 = b"2 2\n".to_vec();
    let l3 = b"300 -3 0 32767\n".to_vec();
    let env = parse_environment_lines(&l1, &l2, &l3).ok().unwrap();
    assert_eq!(env.production_map[0], 300);
    assert_eq!(env.production_map[1], -3);
    assert_eq!(env.production_map[3], 32767);
    // Beyond the i16 range the token no longer parses.
    let l3_wide = b"32768 0 0 0\n".to_vec();
    assert!(parse_environment_lines(&l1, &l2, &l3_wide).is_err());
}

#[test]
fn environment_parsing_rejects_bad_lines() {
    let l3 = b"0 1 2 3 4 5 6 7 8 9 10 11 12 13 14\n".to_vec();
    assert!(parse_environment_lines(&b"bad\n".to_vec(), &b"3 5\n".to_vec(), &l3).is_err());
    assert!(parse_environment_lines(&b"2\n".to_vec(), &b"3\n".to_vec(), &l3).is_err());
    assert!(parse_environment_lines(&b"2\n".to_vec(), &b"3 5 9\n".to_vec(), &l3).is_err());
    assert!(parse_environment_lines(&b"2\n".to_vec(), &b"0 5\n".to_vec(), &l3).is_err());
    // A production map of the wrong size.
    assert!(parse_environment_lines(&b"2\n".to_vec(), &b"3 5\n".to_vec(), &b"1 2 3\n".to_vec())
        .is_err());
}

#[test]
fn state_parsing_decodes_runs() {
    // Four cells of player 1, two neutral cells, then six strengths.
    let line = b"4 1 2 0 9 8 7 6 5 4\n".to_vec();
    let occ = parse_state_line(&line, 6).ok().unwrap();
    let tags: Vec<u8> = occ.iter().map(|o| o.tag).collect();
    let strengths: Vec<i16> = occ.iter().map(|o| o.strength).collect();
    assert_eq!(tags, vec![1, 1, 1, 1, 0, 0]);
    assert_eq!(strengths, vec![9, 8, 7, 6, 5, 4]);
}

#[test]
fn state_parsing_reads_past_zero_runs() {
    let line = b"0 7 2 3 1 1 5 5 5\n".to_vec();
    let occ = parse_state_line(&line, 3).ok().unwrap();
    let tags: Vec<u8> = occ.iter().map(|o| o.tag).collect();
    assert_eq!(tags, vec![3, 3, 1]);
}

#[test]
fn state_parsing_rejects_bad_lines() {
    // A run crossing the end of the grid.
    assert!(parse_state_line(&b"4 1 1 1 1 1\n".to_vec(), 3).is_err());
    // Missing strengths.
    assert!(parse_state_line(&b"3 1 9 9\n".to_vec(), 3).is_err());
    // Leftover tokens.
    assert!(parse_state_line(&b"3 1 9 9 9 9\n".to_vec(), 3).is_err());
    // A missing tag after a run length.
    assert!(parse_state_line(&b"3\n".to_vec(), 3).is_err());
}

#[test]
fn ready_message_appends_the_tag() {
    let msg = ready_message(&b"UmpteenthAnion".to_vec(), 2);
    assert_eq!(msg, b"UmpteenthAnion_2\n".to_vec());
    let msg10 = ready_message(&b"bot".to_vec(), 10);
    assert_eq!(msg10, b"bot_10\n".to_vec());
}

#[test]
fn moves_message_encodes_triples() {
    let moves: Vec<Action> = vec![
        (Coord { x: 1, y: 2 }, Some(Dir::North)),
        (Coord { x: 0, y: 0 }, None),
        (Coord { x: 10, y: 3 }, Some(Dir::West)),
    ];
    let msg = moves_message(&moves);
    assert_eq!(msg, b"1 2 1 0 0 0 10 3 4\n".to_vec());
    let empty = moves_message(&Vec::new());
    assert_eq!(empty, b"\n".to_vec());
}
