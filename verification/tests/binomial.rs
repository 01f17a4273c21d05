use zahlenmauer::wall::n_choose_k;

#[test]
fn test_binominal() {
    let nck = n_choose_k(0, 0);
    assert_eq!(nck, 1);
    let nck = n_choose_k(6, 3);
    assert_eq!(nck, 20);
    let nck = n_choose_k(7, 0);
    assert_eq!(nck, 1);
    let nck = n_choose_k(7, 1);
    assert_eq!(nck, 7);
    let nck = n_choose_k(7, 2);
    assert_eq!(nck, 21);
    let nck = n_choose_k(7, 3);
    assert_eq!(nck, 35);
    let nck = n_choose_k(7, 4);
    assert_eq!(nck, 35);
    let nck = n_choose_k(7, 5);
    assert_eq!(nck, 21);
    let nck = n_choose_k(7, 6);
    assert_eq!(nck, 7);
    let nck = n_choose_k(7, 7);
    assert_eq!(nck, 1);
}
