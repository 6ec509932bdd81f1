use lambda_ogham::ogham::{find_letter, into_ogham, ogham_of_lowercase, Ogham};

#[test]
fn a_text_stands_between_the_marks() {
    assert_eq!(into_ogham(String::new()), "\u{169b}\u{169c}");
    assert_eq!(ogham_of_lowercase(""), "\u{169b}\u{169c}");
}

#[test]
fn letters_become_their_signs() {
    assert_eq!(
        into_ogham("hello world".to_string()),
        "\u{169b}\u{1686}\u{1693}\u{1682}\u{1682}\u{1691}\u{1680}\u{1695}\u{1691}\u{168f}\u{1682}\u{1687}\u{169c}"
    );
}

#[test]
fn the_whole_alphabet() {
    assert_eq!(
        into_ogham("abcdefghijklmnopqrstuvwxyz".to_string()),
        "\u{169b}\u{1690}\u{1681}\u{1689}\u{1687}\u{1693}\u{1683}\u{168c}\u{1686}\u{1694}\
         \u{1686}\u{1689}\u{1682}\u{168b}\u{1685}\u{1691}\u{169a}\u{168a}\u{168f}\u{1684}\
         \u{1688}\u{1692}\u{1683}\u{1695}\u{1696}\u{1698}\u{168e}\u{169c}"
    );
}

#[test]
fn capitals_are_written_as_small_letters() {
    assert_eq!(into_ogham("ABC".to_string()), "\u{169b}\u{1690}\u{1681}\u{1689}\u{169c}");
    assert_eq!(into_ogham("Ogham".to_string()), into_ogham("ogham".to_string()));
}

#[test]
fn text_in_lower_case_is_taken_as_it_is() {
    assert_eq!(ogham_of_lowercase("abc"), "\u{169b}\u{1690}\u{1681}\u{1689}\u{169c}");
    assert_eq!(ogham_of_lowercase("ABC"), "\u{169b}\u{1680}\u{1680}\u{1680}\u{169c}");
}

#[test]
fn other_characters_become_spaces() {
    assert_eq!(
        into_ogham("a, b!".to_string()),
        "\u{169b}\u{1690}\u{1680}\u{1680}\u{1681}\u{1680}\u{169c}"
    );
    assert_eq!(into_ogham("é1\n".to_string()), "\u{169b}\u{1680}\u{1680}\u{1680}\u{169c}");
}

#[test]
fn the_table_of_letters() {
    assert_eq!(find_letter('a'), Some(Ogham::A));
    assert_eq!(find_letter('j'), Some(Ogham::H));
    assert_eq!(find_letter('k'), Some(Ogham::C));
    assert_eq!(find_letter('v'), Some(Ogham::F));
    assert_eq!(find_letter('w'), Some(Ogham::EA));
    assert_eq!(find_letter('x'), Some(Ogham::OI));
    assert_eq!(find_letter('y'), Some(Ogham::IA));
    assert_eq!(find_letter(' '), Some(Ogham::Space));
    assert_eq!(find_letter('A'), None);
    assert_eq!(find_letter('-'), None);
}

#[test]
fn the_characters_of_the_signs() {
    assert_eq!(char::from(Ogham::B), 'ᚁ');
    assert_eq!(char::from(Ogham::I), 'ᚔ');
    assert_eq!(char::from(Ogham::NG), 'ᚍ');
    assert_eq!(char::from(Ogham::UI), 'ᚗ');
    assert_eq!(char::from(Ogham::AE), 'ᚚ');
    assert_eq!(char::from(Ogham::P), 'ᚚ');
    assert_eq!(char::from(Ogham::Start), '᚛');
    assert_eq!(char::from(Ogham::End), '᚜');
    assert_eq!(char::from(Ogham::Space), '\u{1680}');
}
