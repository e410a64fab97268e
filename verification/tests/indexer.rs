use reversi::common::{PlayerColor, Square, BOARD_SIZE};
use reversi::indexer::{create_mobility_table, index_to_line, line_to_index, FlipInfo, Indexer};

#[test]
fn indexer_test_line_to_index() {
    let line0 = [Square::Empty; BOARD_SIZE];
    let index0 = line_to_index(&line0);
    assert_eq!(0, index0);

    let line1 = [Square::Black; BOARD_SIZE];
    let index1 = line_to_index(&line1);
    let mut expect1 = 0;
    for n in 0..BOARD_SIZE {
        expect1 += 3_u32.pow(n as u32);
    }
    assert_eq!(expect1, index1 as u32);

    let line2 = [Square::White; BOARD_SIZE];
    let index2 = line_to_index(&line2);
    let mut expect2 = 0;
    for n in 0..BOARD_SIZE {
        expect2 += 2 * 3_u32.pow(n as u32);
    }
    assert_eq!(expect2, index2 as u32);
}

#[test]
fn indexer_test_index_to_line() {
    let line = index_to_line(0);
    for s in line {
        assert!(matches!(s, Square::Empty));
    }

    let line1 = [
        Square::White,
        Square::Black,
        Square::Empty,
        Square::White,
        Square::Black,
        Square::Empty,
        Square::White,
        Square::Black,
    ];
    let index = line_to_index(&line1);
    let line2 = index_to_line(index);

    for (s1, s2) in line1.iter().zip(line2.iter()) {
        assert!(s1 == s2);
    }
}

#[test]
fn indexer_test_create_mobility_table() {
    let table = create_mobility_table(PlayerColor::Black);

    for (i, info) in table.iter().enumerate() {
        let line = index_to_line(i);
        for (pos, finfo) in info.flip_infos.iter().enumerate() {
            if finfo.lower != 0 {
                assert!(Square::Empty == line[pos]);
                for it in 1..=finfo.lower as usize {
                    assert!(Square::White == line[pos - it]);
                }
                assert!(Square::Black == line[pos - finfo.lower as usize - 1]);
            }

            if finfo.higher != 0 {
                assert!(Square::Empty == line[pos]);
                for it in 1..=finfo.higher as usize {
                    assert!(Square::White == line[pos + it]);
                }
                assert!(Square::Black == line[pos + finfo.higher as usize + 1]);
            }
        }
    }

    let table = create_mobility_table(PlayerColor::White);

    for (i, info) in table.iter().enumerate() {
        let line = index_to_line(i);
        for (pos, finfo) in info.flip_infos.iter().enumerate() {
            if finfo.lower != 0 {
                assert!(Square::Empty == line[pos]);
                for it in 1..=finfo.lower as usize {
                    assert!(Square::Black == line[pos - it]);
                }
                assert!(Square::White == line[pos - finfo.lower as usize - 1]);
            }

            if finfo.higher != 0 {
                assert!(Square::Empty == line[pos]);
                for it in 1..=finfo.higher as usize {
                    assert!(Square::Black == line[pos + it]);
                }
                assert!(Square::White == line[pos + finfo.higher as usize + 1]);
            }
        }
    }
}

#[test]
fn line_index_has_the_first_cell_in_the_lowest_digit() {
    let mut line = [Square::Empty; 8];
    line[0] = Square::White;
    assert_eq!(line_to_index(&line), 2);
    line[1] = Square::Black;
    assert_eq!(line_to_index(&line), 5);
    line[7] = Square::Black;
    assert_eq!(line_to_index(&line), 5 + 2187);
    assert_eq!(index_to_line(5 + 2187), line.to_vec());
    assert_eq!(table_len(), 6561);
}

fn table_len() -> usize {
    create_mobility_table(PlayerColor::Black).len()
}

#[test]
fn flip_info_counts_both_directions() {
    let indexer = Indexer::new();
    let line = [
        Square::Black,
        Square::White,
        Square::White,
        Square::Empty,
        Square::White,
        Square::Black,
        Square::Empty,
        Square::Empty,
    ];
    let info = indexer.get_flip_info(PlayerColor::Black, &line, 3);
    assert_eq!(*info, FlipInfo { lower: 2, higher: 1 });
    assert_eq!(info.flip_count(), 3);
    let info = indexer.get_flip_info(PlayerColor::White, &line, 3);
    assert_eq!(info.flip_count(), 0);
    let info = indexer.get_flip_info(PlayerColor::White, &line, 6);
    assert_eq!(*info, FlipInfo { lower: 1, higher: 0 });
    let info = indexer.get_flip_info(PlayerColor::Black, &line, 1);
    assert_eq!(info.flip_count(), 0);
    let same = Indexer::default();
    assert_eq!(same.get_flip_info(PlayerColor::Black, &line, 3).flip_count(), 3);
}
