use verandah_image::badge::Gravity;

#[test]
fn gravity_accepts_imagemagick_words() -> Result<(), String> {
    assert_eq!("NorthEast".parse::<Gravity>()?, Gravity::NorthEast);
    assert_eq!("SouthWest".parse::<Gravity>()?, Gravity::SouthWest);
    assert_eq!("Center".parse::<Gravity>()?, Gravity::Center);
    Ok(())
}

#[test]
fn gravity_accepts_compass_abbreviations() -> Result<(), String> {
    assert_eq!("NE".parse::<Gravity>()?, Gravity::NorthEast);
    assert_eq!("sw".parse::<Gravity>()?, Gravity::SouthWest);
    assert_eq!("C".parse::<Gravity>()?, Gravity::Center);
    Ok(())
}

#[test]
fn gravity_is_case_insensitive() -> Result<(), String> {
    assert_eq!("nOrThEaSt".parse::<Gravity>()?, Gravity::NorthEast);
    Ok(())
}

#[test]
fn gravity_accepts_centre_spelling() -> Result<(), String> {
    assert_eq!("centre".parse::<Gravity>()?, Gravity::Center);
    Ok(())
}

#[test]
fn gravity_rejects_unknown_and_placement_meaningless_values() {
    for bad in ["", "middle", "none", "forget", "up"] {
        assert!(bad.parse::<Gravity>().is_err(), "{bad} should not parse");
    }
}

#[test]
fn gravity_defaults_to_north_east() {
    assert_eq!(Gravity::default(), Gravity::NorthEast);
}

#[test]
fn gravity_maps_every_variant_from_both_spellings() -> Result<(), String> {
    let cases = [
        ("NorthWest", "NW", Gravity::NorthWest),
        ("North", "N", Gravity::North),
        ("NorthEast", "NE", Gravity::NorthEast),
        ("West", "W", Gravity::West),
        ("Center", "C", Gravity::Center),
        ("East", "E", Gravity::East),
        ("SouthWest", "SW", Gravity::SouthWest),
        ("South", "S", Gravity::South),
        ("SouthEast", "SE", Gravity::SouthEast),
    ];
    for (word, abbrev, want) in cases {
        assert_eq!(word.parse::<Gravity>()?, want, "full word {word}");
        assert_eq!(abbrev.parse::<Gravity>()?, want, "abbreviation {abbrev}");
        // and case-insensitively
        assert_eq!(
            word.to_ascii_lowercase().parse::<Gravity>()?,
            want,
            "lowercased {word}"
        );
        assert_eq!(
            abbrev.to_ascii_lowercase().parse::<Gravity>()?,
            want,
            "lowercased {abbrev}"
        );
    }
    Ok(())
}

#[test]
fn gravity_error_names_the_lowercased_input() {
    let err = Gravity::from_name("MiddLe").unwrap_err();
    assert_eq!(
        err,
        "unrecognized gravity 'middle': expected a compass direction such as NorthEast or NE"
    );
}

#[test]
fn gravity_from_name_agrees_with_parse() {
    for name in ["nw", "NORTH", "Centre", "se", "x"] {
        assert_eq!(Gravity::from_name(name), name.parse::<Gravity>());
    }
}

#[test]
fn gravity_rejects_non_ascii_lookalikes() {
    // A Kelvin sign lower-cases to 'k' under Unicode rules, but not under ASCII ones.
    assert!("NORTHEAST\u{212A}".parse::<Gravity>().is_err());
    assert!(" ne".parse::<Gravity>().is_err());
}
