use simple_json::data_structure::{ArrayType, ArrayTypeRef, JsonArray, JsonObject};
use simple_json::value::{FloatBits, Null};

fn float(value: f32) -> FloatBits {
    FloatBits::from_bits(value.to_bits())
}

fn number(bits: FloatBits) -> f32 {
    f32::from_bits(bits.to_bits())
}

#[test]
fn data_structure() {
    let mut object = JsonObject::new();
    object.insert_int("Simon", 18);
    object.insert_bool("male", true);

    assert!(object.get_object("Foo").is_none());
    assert_eq!(object.get_int("Simon").expect("Is none"), 18);

    let mut array = JsonArray::new();
    array.add_int(18);
    array.add_int(19);
    array.add_float(float(18.6));
    array.add_int(20);
    array.add_int(21);
    array.add_string(String::from("Simon"));
    array.add_int(22);

    let num = array.get(0);
    if let Ok(value) = num {
        if let ArrayTypeRef::Int(val) = value {
            println!("{}", val);
        }
    }

    match array.remove(0) {
        Ok(value) => {
            if let ArrayType::Int(val) = value {
                println!("{}", val);
            }
        }
        Err(e) => println!("{}", e),
    }
    match array.remove(1) {
        Ok(value) => println!("{:?}", value),
        Err(e) => println!("{}", e),
    }
    match array.remove(3) {
        Ok(value) => println!("{:?}", value),
        Err(e) => println!("{}", e),
    }
}

#[test]
fn real_life_example() {
    let mut base = JsonObject::new();
    let mut new_base = base.clone();

    let mut my_array = JsonArray::new();
    my_array.add_int(12);
    my_array.add_bool(true);
    my_array.add_string(String::from("Simon"));

    base.insert_float("my_float", float(18.95));
    base.insert_array("my_array", my_array);

    // Get the array, mutate it and put it back
    let result = base.get_array("my_array");
    if let Some(mut array) = result {
        array.add_int(2);
        array.add_float(float(3.1415));

        println!("{:#?}", base);

        new_base.insert_array("my_array", array);

        println!("{:#?}", new_base);
    }
}

fn int_at(array: &JsonArray, index: usize) -> i64 {
    match array.get(index) {
        Ok(ArrayTypeRef::Int(value)) => value,
        other => panic!("no integer at {}: {:?}", index, other),
    }
}

fn string_at(array: &JsonArray, index: usize) -> String {
    match array.get(index) {
        Ok(ArrayTypeRef::String(value)) => value.clone(),
        other => panic!("no string at {}: {:?}", index, other),
    }
}

#[test]
fn removing_from_the_middle_moves_the_rest_up() {
    let mut array = JsonArray::new();
    array.add_int(1);
    array.add_int(2);
    array.add_string(String::from("x"));

    match array.remove(1) {
        Ok(ArrayType::Int(value)) => assert_eq!(value, 2),
        other => panic!("unexpected: {:?}", other),
    }

    assert_eq!(array.len(), 2);
    assert_eq!(int_at(&array, 0), 1);
    assert_eq!(string_at(&array, 1), "x");
    assert!(array.get(2).is_err());
}

#[test]
fn removal_keeps_the_order_across_partitions() {
    let mut array = JsonArray::new();
    array.add_int(18);
    array.add_int(19);
    array.add_float(float(18.6));
    array.add_int(20);
    array.add_int(21);
    array.add_string(String::from("Simon"));
    array.add_int(22);
    assert_eq!(array.len(), 7);

    assert!(matches!(array.remove(0), Ok(ArrayType::Int(18))));
    // 19, 18.6, 20, 21, "Simon", 22
    match array.remove(1) {
        Ok(ArrayType::Float(bits)) => assert_eq!(number(bits), 18.6),
        other => panic!("unexpected: {:?}", other),
    }
    // 19, 20, 21, "Simon", 22
    match array.remove(3) {
        Ok(ArrayType::String(value)) => assert_eq!(value, "Simon"),
        other => panic!("unexpected: {:?}", other),
    }
    // 19, 20, 21, 22
    assert_eq!(array.len(), 4);
    assert_eq!(int_at(&array, 0), 19);
    assert_eq!(int_at(&array, 1), 20);
    assert_eq!(int_at(&array, 2), 21);
    assert_eq!(int_at(&array, 3), 22);
}

#[test]
fn removing_an_absent_index_changes_nothing() {
    let mut array = JsonArray::new();
    assert_eq!(array.remove(0).unwrap_err(), "Index doesn't exist");
    assert_eq!(array.len(), 0);

    array.add_int(7);
    array.add_bool(false);
    assert_eq!(array.remove(2).unwrap_err(), "Index doesn't exist");
    assert_eq!(array.remove(usize::MAX).unwrap_err(), "Index doesn't exist");
    assert_eq!(array.len(), 2);
    assert_eq!(int_at(&array, 0), 7);
    assert!(matches!(array.get(1), Ok(ArrayTypeRef::Bool(false))));
}

#[test]
fn removing_the_last_index_twice_fails_the_second_time() {
    let mut array = JsonArray::new();
    array.add_int(1);
    array.add_int(2);
    array.add_int(3);
    assert!(matches!(array.remove(2), Ok(ArrayType::Int(3))));
    assert_eq!(array.len(), 2);
    assert_eq!(array.remove(2).unwrap_err(), "Index doesn't exist");
    assert_eq!(array.len(), 2);
    assert_eq!(int_at(&array, 0), 1);
    assert_eq!(int_at(&array, 1), 2);
}

#[test]
fn getting_an_absent_index_is_an_error() {
    let mut array = JsonArray::new();
    assert_eq!(array.get(0).unwrap_err(), "Index doesn't exist");
    array.add_null(Null);
    assert!(matches!(array.get(0), Ok(ArrayTypeRef::Null(Null))));
    assert_eq!(array.get(1).unwrap_err(), "Index doesn't exist");
}

#[test]
fn every_kind_can_be_appended_and_read_back() {
    let mut inner_array = JsonArray::new();
    inner_array.add_int(5);
    let mut inner_object = JsonObject::new();
    inner_object.insert_string("name", String::from("Ada"));

    let mut array = JsonArray::new();
    array.add_null(Null);
    array.add_object(inner_object);
    array.add_array(inner_array);
    array.add_string(String::from("s"));
    array.add_bool(true);
    array.add_float(float(1.5));
    array.add_int(-3);
    assert_eq!(array.len(), 7);

    assert!(matches!(array.get(0), Ok(ArrayTypeRef::Null(Null))));
    match array.get(1) {
        Ok(ArrayTypeRef::Object(object)) => {
            assert_eq!(object.get_string("name"), Some(String::from("Ada")))
        }
        other => panic!("unexpected: {:?}", other),
    }
    match array.get(2) {
        Ok(ArrayTypeRef::Array(inner)) => {
            assert_eq!(inner.len(), 1);
            assert_eq!(int_at(inner, 0), 5);
        }
        other => panic!("unexpected: {:?}", other),
    }
    assert_eq!(string_at(&array, 3), "s");
    assert!(matches!(array.get(4), Ok(ArrayTypeRef::Bool(true))));
    match array.get(5) {
        Ok(ArrayTypeRef::Float(bits)) => assert_eq!(number(bits), 1.5),
        other => panic!("unexpected: {:?}", other),
    }
    assert_eq!(int_at(&array, 6), -3);
}

#[test]
fn a_nested_array_can_be_taken_out_changed_and_put_back() {
    let mut inner = JsonArray::new();
    inner.add_int(1);
    let mut outer = JsonArray::new();
    outer.add_bool(true);
    outer.add_array(inner);
    outer.add_bool(false);

    let mut taken = match outer.remove(1) {
        Ok(ArrayType::Array(array)) => array,
        other => panic!("unexpected: {:?}", other),
    };
    assert_eq!(outer.len(), 2);
    assert!(matches!(outer.get(1), Ok(ArrayTypeRef::Bool(false))));

    taken.add_int(2);
    outer.add_array(taken);
    match outer.get(2) {
        Ok(ArrayTypeRef::Array(array)) => {
            assert_eq!(array.len(), 2);
            assert_eq!(int_at(array, 1), 2);
        }
        other => panic!("unexpected: {:?}", other),
    }
}

#[test]
fn set_replaces_in_place_and_may_change_the_kind() {
    let mut array = JsonArray::new();
    array.add_int(1);
    array.add_string(String::from("two"));
    array.add_int(3);

    assert_eq!(array.set_bool(true, 1), Ok(()));
    assert_eq!(array.len(), 3);
    assert_eq!(int_at(&array, 0), 1);
    assert!(matches!(array.get(1), Ok(ArrayTypeRef::Bool(true))));
    assert_eq!(int_at(&array, 2), 3);

    assert_eq!(array.set_int(10, 0), Ok(()));
    assert_eq!(array.set_string(String::from("three"), 2), Ok(()));
    assert_eq!(array.set_float(float(2.5), 1), Ok(()));
    assert_eq!(array.len(), 3);
    assert_eq!(int_at(&array, 0), 10);
    match array.get(1) {
        Ok(ArrayTypeRef::Float(bits)) => assert_eq!(number(bits), 2.5),
        other => panic!("unexpected: {:?}", other),
    }
    assert_eq!(string_at(&array, 2), "three");

    assert_eq!(array.set_null(Null, 0), Ok(()));
    assert_eq!(array.set_array(JsonArray::new(), 1), Ok(()));
    assert_eq!(array.set_object(JsonObject::new(), 2), Ok(()));
    assert!(matches!(array.get(0), Ok(ArrayTypeRef::Null(Null))));
    assert!(matches!(array.get(1), Ok(ArrayTypeRef::Array(_))));
    assert!(matches!(array.get(2), Ok(ArrayTypeRef::Object(_))));
    assert_eq!(array.len(), 3);
}

#[test]
fn set_on_an_absent_index_is_an_error_and_changes_nothing() {
    let mut array = JsonArray::new();
    assert_eq!(array.set_int(1, 0), Err("Index doesn't exist"));
    array.add_int(1);
    assert_eq!(array.set_bool(true, 1), Err("Index doesn't exist"));
    assert_eq!(array.len(), 1);
    assert_eq!(int_at(&array, 0), 1);
}

#[test]
fn removal_after_set_keeps_the_array_dense() {
    let mut array = JsonArray::new();
    array.add_int(0);
    array.add_int(1);
    array.add_int(2);
    array.add_int(3);
    assert_eq!(array.set_string(String::from("one"), 1), Ok(()));
    assert!(matches!(array.remove(0), Ok(ArrayType::Int(0))));
    assert_eq!(array.len(), 3);
    assert_eq!(string_at(&array, 0), "one");
    assert_eq!(int_at(&array, 1), 2);
    assert_eq!(int_at(&array, 2), 3);
}

#[test]
fn an_object_keeps_one_value_per_key_and_kind() {
    let mut object = JsonObject::new();
    object.insert_int("n", 1);
    object.insert_int("n", 2);
    assert_eq!(object.get_int("n"), Some(2));
    assert_eq!(object.get_bool("n"), None);

    // The partitions are independent: the same key may be used in two.
    object.insert_bool("n", true);
    assert_eq!(object.get_int("n"), Some(2));
    assert_eq!(object.get_bool("n"), Some(true));

    assert_eq!(object.delete_int("n"), Some(2));
    assert_eq!(object.delete_int("n"), None);
    assert_eq!(object.get_int("n"), None);
    assert_eq!(object.get_bool("n"), Some(true));
}

#[test]
fn every_kind_can_be_stored_read_and_deleted() {
    let mut inner_array = JsonArray::new();
    inner_array.add_int(5);
    let mut inner_object = JsonObject::new();
    inner_object.insert_int("depth", 1);

    let mut object = JsonObject::new();
    object.insert_int("i", i64::MIN);
    object.insert_float("f", float(-0.25));
    object.insert_bool("b", false);
    object.insert_string("s", String::from("text"));
    object.insert_array("a", inner_array);
    object.insert_object("o", inner_object);
    object.insert_null("z", Null);

    assert_eq!(object.get_int("i"), Some(i64::MIN));
    assert_eq!(object.get_float("f").map(number), Some(-0.25));
    assert_eq!(object.get_bool("b"), Some(false));
    assert_eq!(object.get_string("s"), Some(String::from("text")));
    assert_eq!(object.get_array("a").map(|array| array.len()), Some(1));
    assert_eq!(object.get_object("o").and_then(|inner| inner.get_int("depth")), Some(1));
    assert_eq!(object.get_null("z"), Some(Null));

    assert_eq!(object.get_int("x"), None);
    assert_eq!(object.get_float("x"), None);
    assert_eq!(object.get_bool("x"), None);
    assert_eq!(object.get_string("x"), None);
    assert!(object.get_array("x").is_none());
    assert!(object.get_object("x").is_none());
    assert_eq!(object.get_null("x"), None);

    assert_eq!(object.delete_int("i"), Some(i64::MIN));
    assert_eq!(object.delete_float("f").map(number), Some(-0.25));
    assert_eq!(object.delete_bool("b"), Some(false));
    assert_eq!(object.delete_string("s"), Some(String::from("text")));
    assert_eq!(object.delete_array("a").map(|array| array.len()), Some(1));
    assert_eq!(object.delete_object("o").and_then(|inner| inner.get_int("depth")), Some(1));
    assert_eq!(object.delete_null("z"), Some(Null));

    assert_eq!(object.get_int("i"), None);
    assert_eq!(object.get_float("f"), None);
    assert_eq!(object.get_bool("b"), None);
    assert_eq!(object.get_string("s"), None);
    assert!(object.get_array("a").is_none());
    assert!(object.get_object("o").is_none());
    assert_eq!(object.get_null("z"), None);
    assert!(object.delete_array("a").is_none());
}

#[test]
fn deleting_one_key_leaves_the_others() {
    let mut object = JsonObject::new();
    object.insert_string("a", String::from("1"));
    object.insert_string("b", String::from("2"));
    object.insert_string("c", String::from("3"));
    assert_eq!(object.delete_string("b"), Some(String::from("2")));
    assert_eq!(object.get_string("a"), Some(String::from("1")));
    assert_eq!(object.get_string("b"), None);
    assert_eq!(object.get_string("c"), Some(String::from("3")));
}

#[test]
fn a_copy_is_independent_of_what_it_was_copied_from() {
    let mut inner = JsonArray::new();
    inner.add_int(1);
    let mut object = JsonObject::new();
    object.insert_array("list", inner);
    object.insert_int("n", 1);

    let mut copy = object.clone();
    copy.insert_int("n", 2);
    let mut list = copy.delete_array("list").unwrap();
    list.add_int(2);
    copy.insert_array("list", list);

    assert_eq!(object.get_int("n"), Some(1));
    assert_eq!(object.get_array("list").map(|array| array.len()), Some(1));
    assert_eq!(copy.get_int("n"), Some(2));
    assert_eq!(copy.get_array("list").map(|array| array.len()), Some(2));

    let mut array = JsonArray::new();
    array.add_string(String::from("a"));
    array.add_object(object);
    let mut twin = array.clone();
    assert!(matches!(twin.remove(0), Ok(ArrayType::String(_))));
    assert_eq!(array.len(), 2);
    assert_eq!(twin.len(), 1);
    assert_eq!(string_at(&array, 0), "a");
    assert!(matches!(twin.get(0), Ok(ArrayTypeRef::Object(_))));
}

#[test]
fn float_bits_round_trip() {
    assert_eq!(number(float(18.95)), 18.95);
    assert_eq!(FloatBits::from_bits(0x3fc0_0000).to_bits(), 0x3fc0_0000);
    assert_eq!(number(FloatBits::from_bits(0x3fc0_0000)), 1.5);
}

#[test]
fn dump_gives_no_text() {
    let mut object = JsonObject::new();
    object.insert_int("n", 1);
    assert_eq!(simple_json::dump(object), "");
}
