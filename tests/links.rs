use fshare::links::{generate_random_link, is_link_valid, link_from_draws};

#[test]
fn gen_links_works() {
    let link = generate_random_link();
    assert!(
        link.len() >= 10 && link.len() <= 16,
        "Link between 10 and 15 characters long"
    );
}

#[test]
fn generated_links_are_letters_of_allowed_length() {
    for _ in 0..2000 {
        let link = generate_random_link();
        assert!(link.len() >= 10 && link.len() <= 14, "bad length: {}", link);
        assert!(link.chars().all(|c| c.is_ascii_alphabetic()), "bad char: {}", link);
        assert!(is_link_valid(&link));
    }
}

#[test]
fn generated_links_use_both_cases() {
    let mut upper = false;
    let mut lower = false;
    for _ in 0..200 {
        let link = generate_random_link();
        upper = upper || link.chars().any(|c| c.is_ascii_uppercase());
        lower = lower || link.chars().any(|c| c.is_ascii_lowercase());
    }
    assert!(upper && lower);
}

#[test]
fn link_validity_checks_every_character() {
    assert!(is_link_valid("AbcDefGhiJ"));
    assert!(is_link_valid("Zz"));
    assert!(is_link_valid(""));
    assert!(!is_link_valid("abc1"));
    assert!(!is_link_valid("../etc"));
    assert!(!is_link_valid("ab cd"));
    assert!(!is_link_valid("é"));
}

#[test]
fn draws_spell_the_link() {
    let cases = vec![0, 1, 0, 1, 0, 1, 0, 1, 0, 1];
    let offsets = vec![0, 0, 25, 25, 1, 2, 3, 4, 5, 6];
    assert_eq!(link_from_draws(&cases, &offsets), "AaZzBcDeFg");
    let cases = vec![1; 14];
    let offsets: Vec<u32> = (0..14).collect();
    assert_eq!(link_from_draws(&cases, &offsets), "abcdefghijklmn");
}
