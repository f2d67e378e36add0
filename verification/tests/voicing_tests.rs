use core_engine::mapping::NoteCoordinate;
use core_engine::theory::Note;
use core_engine::voicing::{backtrack, generate_voicing, is_valid_chord, Voicing, VoicingConfig};

// A matrix of every coordinate on a board.
fn generate_test_board(strings: usize, frets: u8) -> Vec<NoteCoordinate> {
    let mut coords = Vec::new();
    for string_index in 0..strings {
        for fret in 0..=frets {
            coords.push(NoteCoordinate { string_index: string_index as u8, fret });
        }
    }
    coords
}

#[test]
fn test_minimum_three_notes_required() {
    let coords = generate_test_board(6, 12);
    let open_strings = [4, 9, 2, 7, 11, 4]; // E A D G B E
    let config = VoicingConfig {
        max_stretch: 4,
        require_all_target_notes: false,
        allow_open_strings: false,
        capo_fret: 0,
    };

    let results = generate_voicing(&[], &coords, 6, &open_strings, &config);

    for voicing in results {
        let active_notes = voicing.frets.iter().filter(|f| f.is_some()).count();
        assert!(active_notes >= 3, "Found a voicing with less than 3 notes");
    }
}

#[test]
fn test_max_stretch_respected() {
    let coords = generate_test_board(6, 15);
    let open_strings = [4, 9, 2, 7, 11, 4];
    let config = VoicingConfig {
        max_stretch: 3,
        require_all_target_notes: false,
        allow_open_strings: false,
        capo_fret: 0,
    };

    let results = generate_voicing(&[], &coords, 6, &open_strings, &config);

    for voicing in results {
        let frets: Vec<u8> = voicing.frets.iter().filter_map(|&f| f).collect();
        if frets.is_empty() {
            continue;
        }
        let min_fret = frets.iter().min().unwrap();
        let max_fret = frets.iter().max().unwrap();
        assert!((max_fret - min_fret) <= config.max_stretch, "Stretch exceeded: {:?}", frets);
    }
}

#[test]
fn test_target_mask_completeness() {
    let open_strings = [4, 9, 2, 7, 11, 4];
    let config = VoicingConfig {
        max_stretch: 4,
        require_all_target_notes: true,
        allow_open_strings: true,
        capo_fret: 0,
    };

    // Target: C (0), E (4), G (7)
    let target_mask: u16 = (1 << 0) | (1 << 4) | (1 << 7);

    // Valid shape: E C E G C E -> [0, 3, 2, 0, 1, 0]
    let valid_shape = vec![Some(0), Some(3), Some(2), Some(0), Some(1), Some(0)];
    assert!(
        is_valid_chord(&valid_shape, target_mask, &open_strings, &config),
        "Valid C major chord was rejected"
    );

    // Invalid shape: E C E G B E -> [0, 3, 2, 0, 0, 0] (B is not in C Major)
    let invalid_shape = vec![Some(0), Some(3), Some(2), Some(0), Some(0), Some(0)];
    assert!(
        !is_valid_chord(&invalid_shape, target_mask, &open_strings, &config),
        "Invalid chord containing a B was accepted"
    );
}

#[test]
fn test_capo_logic() {
    let coords = generate_test_board(6, 12);
    let open_strings = [4, 9, 2, 7, 11, 4];
    let capo = 5;

    let config = VoicingConfig {
        max_stretch: 4,
        require_all_target_notes: false,
        allow_open_strings: true,
        capo_fret: capo,
    };

    let results = generate_voicing(&[], &coords, 6, &open_strings, &config);

    for voicing in results {
        for &fret_opt in &voicing.frets {
            if let Some(fret) = fret_opt {
                assert!(fret >= capo, "Found a fret ({}) below the capo ({})", fret, capo);
            }
        }
    }
}

// ---------------------------------------------------------------------------
// Further cases
// ---------------------------------------------------------------------------

fn pitch(open: u8, fret: u8) -> u8 {
    (open + fret) % 12
}

#[test]
fn c_major_voicings_on_a_small_board() {
    let coords = generate_test_board(4, 5);
    let open_strings = [4, 9, 2, 7];
    let config = VoicingConfig {
        max_stretch: 3,
        require_all_target_notes: true,
        allow_open_strings: true,
        capo_fret: 0,
    };
    let targets = [Note::C, Note::E, Note::G];
    let results = generate_voicing(&targets, &coords, 4, &open_strings, &config);
    assert!(!results.is_empty());
    // The familiar open shape on the low four strings: E C E G.
    assert!(results.contains(&Voicing { frets: vec![Some(0), Some(3), Some(2), Some(0)] }));
    for (i, v) in results.iter().enumerate() {
        let played: Vec<(usize, u8)> =
            v.frets.iter().enumerate().filter_map(|(s, f)| f.map(|f| (s, f))).collect();
        assert!(played.len() >= 3);
        let mut classes = [false; 12];
        for &(s, f) in &played {
            let p = pitch(open_strings[s], f);
            assert!(p == 0 || p == 4 || p == 7, "wrong note in {:?}", v);
            classes[p as usize] = true;
        }
        assert!(classes[0] && classes[4] && classes[7], "missing target in {:?}", v);
        for w in &results[i + 1..] {
            assert_ne!(v, w, "duplicate voicing");
        }
    }
}

#[test]
fn is_valid_chord_rules() {
    let open_strings = [4, 9, 2, 7, 11, 4];
    let loose = VoicingConfig::default();
    let mask: u16 = (1 << 0) | (1 << 4) | (1 << 7);
    // Fewer than three played strings.
    assert!(!is_valid_chord(&[Some(0), None, None, None, None, Some(0)], mask, &open_strings, &loose));
    // Three strings, all in C major, but no G: fine unless all are required.
    let shape = [None, Some(3), Some(2), None, Some(1), Some(0)];
    assert!(is_valid_chord(&shape, mask, &open_strings, &loose));
    let strict = VoicingConfig { require_all_target_notes: true, ..VoicingConfig::default() };
    assert!(!is_valid_chord(&shape, mask, &open_strings, &strict));
    // A mask bit that no string can sound (bit 12) makes a strict check fail.
    assert!(!is_valid_chord(&[Some(0), Some(3), Some(2), Some(0), Some(1), Some(0)], mask | (1 << 12), &open_strings, &strict));
    // Only the played strings need an open pitch.
    assert!(is_valid_chord(&[Some(0), Some(3), Some(2), None, None, None, None], mask, &open_strings, &loose));
}

#[test]
fn default_config() {
    let c = VoicingConfig::default();
    assert_eq!(c.max_stretch, 4);
    assert!(!c.require_all_target_notes);
    assert!(c.allow_open_strings);
    assert_eq!(c.capo_fret, 0);
}

#[test]
fn no_coordinates_no_voicings() {
    let config = VoicingConfig::default();
    let results = generate_voicing(&[Note::C], &[], 6, &[4, 9, 2, 7, 11, 4], &config);
    assert!(results.is_empty());
}

#[test]
fn backtrack_completes_the_prefix() {
    // Three strings tuned C, E, G; each may be muted, open, or fretted at 2.
    let open_strings = [0u8, 4, 7];
    let frets = vec![vec![0u8, 2], vec![0u8, 2], vec![0u8, 2]];
    let config = VoicingConfig::default();
    let target_mask: u16 = (1 << 0) | (1 << 4) | (1 << 7) | (1 << 2) | (1 << 9);
    let mut combo = vec![None, None, None];
    let mut results: Vec<Voicing> = Vec::new();
    backtrack(0, 3, &frets, 1, 5, &mut combo, &mut results, target_mask, &open_strings, &config);
    // Every string must sound (three notes needed) and every sound lies in
    // the mask {C, D, E, G, A}: C or D, E or F#(no), G or A.
    let mut shapes: Vec<Vec<Option<u8>>> = results.iter().map(|v| v.frets.clone()).collect();
    shapes.sort();
    assert_eq!(
        shapes,
        vec![
            vec![Some(0), Some(0), Some(0)],
            vec![Some(0), Some(0), Some(2)],
            vec![Some(2), Some(0), Some(0)],
            vec![Some(2), Some(0), Some(2)],
        ]
    );
    // A fixed first string is kept.
    let mut combo = vec![Some(2), None, None];
    let mut results: Vec<Voicing> = Vec::new();
    backtrack(1, 3, &frets, 1, 5, &mut combo, &mut results, target_mask, &open_strings, &config);
    assert_eq!(combo[0], Some(2));
    assert_eq!(results.len(), 2);
    assert!(results.iter().all(|v| v.frets[0] == Some(2)));
}

#[test]
fn valid_chord_bitmask_form() {
    let open_strings = [0u8, 4, 7, 0];
    let config = VoicingConfig { require_all_target_notes: true, ..VoicingConfig::default() };
    let c_major: u16 = (1 << 0) | (1 << 4) | (1 << 7);
    // played bits {C, E, G}: none outside, all covered
    assert!(is_valid_chord(&[Some(0), Some(0), Some(0), None], c_major, &open_strings, &config));
    // played bits {C, E}: covered fails when all are required
    assert!(!is_valid_chord(&[Some(0), Some(0), None, Some(12)], c_major, &open_strings, &config));
    // played bit D lies outside the mask
    assert!(!is_valid_chord(&[Some(2), Some(0), Some(0), None], c_major, &open_strings, &config));
}
