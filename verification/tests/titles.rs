use markdown_ast::elems::Tittle;

#[test]
fn tittle_test_tittle() {
    let document = "### Header 3";

    assert!(Tittle::is(document));

    let tittle = Tittle::new(document).unwrap();
    assert_eq!(
        tittle,
        Tittle {
            level: 3,
            tittle: "Header 3".into(),
        }
    );
}
