use wadb::qr::{encode, frame, Matrix, QrError, Symbol, PAYLOAD_MAX, QUIET_ZONE};
use wadb::screen::Color;

const SAMPLE: &[u8] = b"WIFI:T:ADB;S:studio-Ab3xK9pQr2;P:7fRt2LmNz4;;";

fn sample() -> Matrix {
    match encode(SAMPLE) {
        Ok(m) => m,
        Err(e) => panic!("{e:?}"),
    }
}

#[test]
fn payload_is_a_version_3_code_at_low_ecc() {
    assert_eq!(SAMPLE.len(), 45);
    let m = sample();
    assert_eq!(
        m.width,
        29 + QUIET_ZONE * 2,
        "29 modules + quiet zone on both sides"
    );
    assert_eq!(m.width, 37);
}

#[test]
fn half_block_rows_halve_the_height() {
    let m = sample();
    let rows = m.half_block_rows();
    assert_eq!(rows.len(), 19, "37 module rows over 2, rounded up");
    assert!(rows.iter().all(|r| r.chars().count() == 37));
}

#[test]
fn quiet_zone_is_blank_on_every_side() {
    let m = sample();
    for i in 0..m.width {
        for q in 0..QUIET_ZONE {
            assert!(!m.get(i, q), "top row {q} must be clear");
            assert!(!m.get(i, m.width - 1 - q), "bottom row {q} must be clear");
            assert!(!m.get(q, i), "left column {q} must be clear");
            assert!(!m.get(m.width - 1 - q, i), "right column {q} must be clear");
        }
    }
}

#[test]
fn finder_pattern_is_where_it_should_be() {
    let m = sample();
    for i in 0..7 {
        assert!(m.get(QUIET_ZONE + i, QUIET_ZONE), "finder top edge");
        assert!(m.get(QUIET_ZONE, QUIET_ZONE + i), "finder left edge");
    }
    assert!(
        !m.get(QUIET_ZONE + 1, QUIET_ZONE + 1),
        "finder inner ring is light"
    );
}

#[test]
fn polarity_is_forced_black_on_white() {
    let m = sample();
    let lines = m.to_lines();
    let style = lines[0].spans[0].style;
    assert_eq!(style.fg, Some(Color::Black));
    assert_eq!(style.bg, Some(Color::White));
}

#[test]
fn odd_module_count_does_not_lose_the_last_row() {
    let m = Matrix::new(
        3,
        vec![true, false, true, false, true, false, true, true, true],
    )
    .unwrap();
    let rows = m.half_block_rows();
    assert_eq!(rows.len(), 2);
    assert_eq!(rows[0], "▀▄▀");
    assert_eq!(rows[1], "▀▀▀");
}

#[test]
fn a_grid_has_to_be_square() {
    assert!(Matrix::new(2, vec![true; 3]).is_none());
    assert!(Matrix::new(usize::MAX, vec![]).is_none());
    let m = Matrix::new(2, vec![true, true, false, true]).unwrap();
    assert_eq!(m.half_block_rows(), ["▀█"]);
    assert!(m.get(1, 1));
    assert!(!m.get(0, 1));
    assert!(!m.get(2, 0), "nothing is dark outside the grid");
    assert!(Matrix::new(0, vec![]).unwrap().half_block_rows().is_empty());
}

#[test]
fn a_code_is_framed_module_for_module() {
    let s = Symbol {
        width: 2,
        dark: vec![true, false, false, true],
    };
    let m = frame(&s);
    assert_eq!(m.width, 10);
    for y in 0..10 {
        for x in 0..10 {
            assert_eq!(m.get(x, y), (x, y) == (4, 4) || (x, y) == (5, 5));
        }
    }
}

#[test]
fn the_longest_payload_makes_a_code() {
    let plain = vec![b'x'; PAYLOAD_MAX];
    let mixed: Vec<u8> = b"x1234".iter().copied().cycle().take(PAYLOAD_MAX).collect();
    let letters: Vec<u8> = b"xABCDEF".iter().copied().cycle().take(PAYLOAD_MAX).collect();
    for (payload, width) in [
        (&b""[..], 21 + 8),
        (&plain[..], 53 + 8),
        (&mixed[..], 65 + 8),
        (&letters[..], 57 + 8),
    ] {
        match encode(payload) {
            Ok(m) => assert_eq!(m.width, width),
            Err(e) => panic!("{e:?}"),
        }
    }
}

#[test]
fn every_error_has_its_words() {
    assert_eq!(QrError::DataTooLong.text(), "data too long");
    assert_eq!(QrError::InvalidVersion.text(), "invalid version");
    assert_eq!(
        QrError::UnsupportedCharacterSet.text(),
        "unsupported character set"
    );
    assert_eq!(
        QrError::InvalidEciDesignator.text(),
        "invalid ECI designator"
    );
    assert_eq!(QrError::InvalidCharacter.text(), "invalid character");
}
