use importer_rebike::job::slug::format_slug;

struct Test {
    input: String,
    expected: String,
}

#[test]
fn test_multiple_whitespace() {
    let tests = vec![
        Test {
            input: "Fahrradmechaniker (E-) Bike-Werkstatt - mit Wechselprämie (m/w/d)".to_string(),
            expected: "fahrradmechaniker-e-bike-werkstatt-mit-wechselprmie-mwd".to_string(),
        },
        Test {
            input: "Fahrradmechaniker im Kundenservice / Remote (m/w/d)".to_string(),
            expected: "fahrradmechaniker-im-kundenservice-remote-mwd".to_string(),
        },
        Test {
            input: "Fahrradmonteur Azubi Sommer 2026 (m/w/d)".to_string(),
            expected: "fahrradmonteur-azubi-sommer-2026-mwd".to_string(),
        },
    ];

    for test in tests {
        let result = format_slug(&test.input).unwrap();
        assert_eq!(result, test.expected)
    }
}

#[test]
fn slug_drops_umlauts_and_pipes() {
    assert_eq!(format_slug("  Äpfel | Öl / Über  ").unwrap(), "pfel-l-ber");
}

#[test]
fn slug_collapses_dash_runs() {
    assert_eq!(format_slug("a----b").unwrap(), "a-b");
    assert_eq!(format_slug("a-b").unwrap(), "a-b");
}

#[test]
fn slug_of_empty_title() {
    assert_eq!(format_slug("   ").unwrap(), "");
}

#[test]
fn slug_has_no_dropped_characters() {
    let slug = format_slug("Köln (Süd) / Düsseldorf | Nord").unwrap();
    for c in ['ä', 'ö', 'ü', '(', ')', '/', ' ', '|'] {
        assert!(!slug.contains(c));
    }
    assert_eq!(slug, "kln-sd-dsseldorf-nord");
}

#[test]
fn slug_is_idempotent_on_titles() {
    for title in [
        "Bike Mechanic (m/w/d)",
        "  Lead -- Dev / Ops  ",
        "A|B",
        "Fahrradmechaniker (E-) Bike-Werkstatt - mit Wechselpr\u{e4}mie (m/w/d)",
        "\u{dc}ber \u{c4}rger \u{d6}l",
        "\u{e4} x \u{fc}",
    ] {
        let once = format_slug(title).unwrap();
        assert_eq!(format_slug(&once).unwrap(), once);
    }
}

#[test]
fn space_runs_give_one_dash() {
    assert_eq!(format_slug("Bike    Mechanic").unwrap(), format_slug("Bike Mechanic").unwrap());
    assert_eq!(format_slug("Bike    Mechanic").unwrap(), "bike-mechanic");
}

#[test]
fn space_runs_with_umlauts_give_one_dash() {
    assert_eq!(
        format_slug("\u{d6}l   Wechsel").unwrap(),
        format_slug("\u{d6}l Wechsel").unwrap()
    );
    assert_eq!(format_slug("\u{d6}l   Wechsel").unwrap(), "l-wechsel");
    assert_eq!(format_slug("Pr\u{c4}MIE  \u{dc}").unwrap(), "prmie-");
}
