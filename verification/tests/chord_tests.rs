use core_engine::theory::chord::{identify_chord, ChordDatabase, ChordTemplate};

fn template(name: &str, intervals: &[u8]) -> ChordTemplate {
    ChordTemplate { name: name.to_string(), intervals: intervals.to_vec() }
}

fn sample_db() -> ChordDatabase {
    ChordDatabase {
        templates: vec![
            template("5", &[0, 7]),
            template("Major", &[0, 4, 7]),
            template("Minor", &[0, 3, 7]),
            template("Diminished", &[0, 3, 6]),
            template("Augmented", &[0, 4, 8]),
            template("Dominant 7", &[0, 4, 7, 10]),
            template("Minor 7", &[0, 3, 7, 10]),
        ],
    }
}

#[test]
fn test_chord_identification() {
    let db = sample_db();

    // C Major triad: C (60), E (64), G (67)
    let c_major = vec![60, 64, 67];
    assert_eq!(identify_chord(&c_major, &db), Some("C Major".to_string()));

    // C Major inversion: E (64), G (67), C (72)
    let c_major_inversion = vec![64, 67, 72];
    assert_eq!(identify_chord(&c_major_inversion, &db), Some("C Major".to_string()));
}

#[test]
fn identification_cases() {
    let db = sample_db();
    assert_eq!(identify_chord(&[57, 60, 64], &db), Some("A Minor".to_string()));
    assert_eq!(identify_chord(&[61, 68], &db), Some("CSharp 5".to_string()));
    assert_eq!(identify_chord(&[43, 47, 50, 53], &db), Some("G Dominant 7".to_string()));
    assert_eq!(identify_chord(&[60, 61, 62], &db), None);
    assert_eq!(identify_chord(&[], &db), None);
    // An augmented triad is symmetric: the lowest matching pitch class wins.
    assert_eq!(identify_chord(&[64, 68, 72], &db), Some("C Augmented".to_string()));
    // Repeated pitch classes count once.
    assert_eq!(identify_chord(&[48, 60, 64, 76, 67], &db), Some("C Major".to_string()));
    let empty = ChordDatabase { templates: vec![] };
    assert_eq!(identify_chord(&[60, 64, 67], &empty), None);
}

#[test]
fn chord_templates_compare_by_name_and_intervals() {
    assert_eq!(template("Major", &[0, 4, 7]), template("Major", &[0, 4, 7]));
    assert_ne!(template("Major", &[0, 4, 7]), template("Minor", &[0, 3, 7]));
}

#[test]
fn identification_ignores_octaves_and_order() {
    let db = ChordDatabase {
        templates: vec![template("Major", &[0, 4, 7]), template("Minor", &[0, 3, 7])],
    };
    let close = identify_chord(&[60, 64, 67], &db);
    assert_eq!(close, Some("C Major".to_string()));
    assert_eq!(identify_chord(&[76, 48, 55, 72, 64], &db), close);
    assert_eq!(identify_chord(&[57, 60, 64], &db), Some("A Minor".to_string()));
}
