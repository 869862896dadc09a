use groot::appearance::Appearance;

#[test]
fn parse_roundtrip_and_unknown() {
    assert_eq!(Appearance::parse("light"), Appearance::Light);
    assert_eq!(Appearance::parse("dark"), Appearance::Dark);
    assert_eq!(Appearance::parse("system"), Appearance::System);
    assert_eq!(Appearance::parse("bogus"), Appearance::System);
    assert_eq!(Appearance::Dark.as_str(), "dark");
}

#[test]
fn parse_trims_surrounding_white_space() {
    assert_eq!(Appearance::parse("  dark\n"), Appearance::Dark);
    assert_eq!(Appearance::parse("\tlight \u{3000}"), Appearance::Light);
    assert_eq!(Appearance::parse("Dark"), Appearance::System);
    assert_eq!(Appearance::parse("da rk"), Appearance::System);
    assert_eq!(Appearance::parse(""), Appearance::System);
}

#[test]
fn every_appearance_parses_back() {
    for a in [Appearance::Light, Appearance::Dark, Appearance::System] {
        assert_eq!(Appearance::parse(a.as_str()), a);
    }
    assert_eq!(Appearance::Light.as_str(), "light");
    assert_eq!(Appearance::System.as_str(), "system");
}

#[test]
fn default_appearance_is_system() {
    assert_eq!(Appearance::default(), Appearance::System);
}
