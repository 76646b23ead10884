use core_nft::value::{get_value_size, Icrc3Value};

#[test]
fn sizes_of_plain_values() {
    assert_eq!(get_value_size(&Icrc3Value::Blob(vec![1, 2, 3])), 3);
    assert_eq!(get_value_size(&Icrc3Value::Text("héllo".to_string())), 6);
    assert_eq!(get_value_size(&Icrc3Value::Nat(0)), 1);
    assert_eq!(get_value_size(&Icrc3Value::Nat(255)), 1);
    assert_eq!(get_value_size(&Icrc3Value::Nat(256)), 2);
    assert_eq!(get_value_size(&Icrc3Value::Nat(u128::MAX)), 16);
    assert_eq!(get_value_size(&Icrc3Value::Int(-256)), 2);
    assert_eq!(get_value_size(&Icrc3Value::Int(i128::MIN)), 16);
}

#[test]
fn sizes_of_nested_values() {
    let v = Icrc3Value::Dict(vec![
        ("ab".to_string(), Icrc3Value::Array(vec![Icrc3Value::Nat(70000), Icrc3Value::Blob(vec![0; 10])])),
        ("c".to_string(), Icrc3Value::Text(String::new())),
    ]);
    assert_eq!(get_value_size(&v), 2 + 3 + 10 + 1 + 0);
    assert_eq!(get_value_size(&Icrc3Value::Array(vec![])), 0);
}
