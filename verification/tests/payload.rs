use mirage::actors::encryption::AesError;
use mirage::actors::memory::Input;

fn text(bytes: &[u8]) -> String {
    String::from_utf8(bytes.to_vec()).unwrap()
}

#[test]
fn an_empty_list_is_two_brackets() {
    assert_eq!(text(&Input::serialize(&[]).unwrap()), "[]");
    assert_eq!(Input::deserialize(b"[]").unwrap(), Vec::<Input>::new());
}

#[test]
fn a_buffer_and_a_byte_in_writing() {
    let items = vec![Input::Buffer(b"hello".to_vec()), Input::Bit(7)];
    assert_eq!(
        text(&Input::serialize(&items).unwrap()),
        "[{\"Buffer\":[104,101,108,108,111]},{\"Bit\":7}]"
    );
}

#[test]
fn numbers_of_one_two_and_three_digits() {
    let items = vec![Input::Buffer(vec![0, 9, 10, 99, 100, 255]), Input::Bit(0), Input::Bit(255)];
    assert_eq!(
        text(&Input::serialize(&items).unwrap()),
        "[{\"Buffer\":[0,9,10,99,100,255]},{\"Bit\":0},{\"Bit\":255}]"
    );
}

#[test]
fn an_empty_buffer_in_writing() {
    let items = vec![Input::Buffer(vec![])];
    assert_eq!(text(&Input::serialize(&items).unwrap()), "[{\"Buffer\":[]}]");
    assert_eq!(Input::deserialize(b"[{\"Buffer\":[]}]").unwrap(), items);
}

#[test]
fn what_is_written_is_read_back() {
    let every_byte: Vec<u8> = (0..=255).collect();
    let lists = vec![
        vec![],
        vec![Input::Bit(1)],
        vec![Input::Buffer(every_byte.clone())],
        vec![Input::Buffer(vec![]), Input::Bit(200), Input::Buffer(vec![1]), Input::Bit(0)],
        (0..=255).map(Input::Bit).collect(),
    ];
    for list in lists {
        let bytes = Input::serialize(&list).unwrap();
        assert_eq!(Input::deserialize(&bytes).unwrap(), list);
    }
}

#[test]
fn what_is_written_is_json_of_the_expected_shape() {
    let items = vec![Input::Buffer(vec![1, 22, 233]), Input::Bit(4)];
    let bytes = Input::serialize(&items).unwrap();
    let value: serde_json::Value = serde_json::from_slice(&bytes).unwrap();
    let list = value.as_array().unwrap();
    assert_eq!(list.len(), 2);
    let buffer = list[0].as_object().unwrap();
    assert_eq!(buffer.len(), 1);
    let numbers: Vec<u64> =
        buffer["Buffer"].as_array().unwrap().iter().map(|n| n.as_u64().unwrap()).collect();
    assert_eq!(numbers, vec![1, 22, 233]);
    let bit = list[1].as_object().unwrap();
    assert_eq!(bit.len(), 1);
    assert_eq!(bit["Bit"].as_u64(), Some(4));
    assert_eq!(serde_json::to_vec(&value).unwrap(), bytes);
}

#[test]
fn bytes_that_are_no_list_are_refused() {
    let refused: Vec<&[u8]> = vec![
        b"",
        b"[",
        b"]",
        b"[]]",
        b"[] ",
        b" []",
        b"[,]",
        b"[{\"Bit\":7},]",
        b"[{\"Bit\":7}",
        b"[{\"Bit\":7}{\"Bit\":7}]",
        b"[{\"Bit\": 7}]",
        b"[{\"Bit\":07}]",
        b"[{\"Bit\":00}]",
        b"[{\"Bit\":256}]",
        b"[{\"Bit\":1000}]",
        b"[{\"Bit\":-1}]",
        b"[{\"Bit\":}]",
        b"[{\"Bit\":7 }]",
        b"[{\"bit\":7}]",
        b"[{\"Bit\":[7]}]",
        b"[{\"Buffer\":7}]",
        b"[{\"Buffer\":[}]",
        b"[{\"Buffer\":[1,]}]",
        b"[{\"Buffer\":[,1]}]",
        b"[{\"Buffer\":[1 ,2]}]",
        b"[{\"Buffer\":[1,2]]",
        b"[{\"Buffer\":[1,2}]",
        b"[{\"Buffer\":[300]}]",
        b"[{\"Buffer\":[01]}]",
        b"{\"Bit\":7}",
        b"hello",
        b"[{\"Buffe",
    ];
    for bytes in refused {
        assert!(
            matches!(Input::deserialize(bytes), Err(AesError::DeserializeError(_))),
            "{:?} was taken",
            String::from_utf8_lossy(bytes)
        );
    }
}

#[test]
fn the_largest_numbers_are_read() {
    assert_eq!(
        Input::deserialize(b"[{\"Bit\":255},{\"Buffer\":[255,0,199,200,249,250]}]").unwrap(),
        vec![Input::Bit(255), Input::Buffer(vec![255, 0, 199, 200, 249, 250])]
    );
}
