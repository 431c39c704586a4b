use plank::js_emit::{module_of, reexport_of};
use plank::json_emit::{
    class_object, document_of, fn_object, interface_object, join, member_of, object_of,
    render_handles, render_object,
};
use plank::type_structs::Field;

fn strings(parts: &[&str]) -> Vec<String> {
    parts.iter().map(|p| p.to_string()).collect()
}

#[test]
fn parts_are_joined_by_commas() {
    assert_eq!(join(&strings(&[])), "");
    assert_eq!(join(&strings(&["a"])), "a");
    assert_eq!(join(&strings(&["a", "", "b"])), "a,,b");
    assert_eq!(render_handles(&vec![]), "");
    assert_eq!(render_handles(&vec![3, 14, 0]), "3,14,0");
}

#[test]
fn objects_are_assembled_from_quoted_names() {
    assert_eq!(member_of("\"n\"", 12), "\"n\":12");
    assert_eq!(object_of(&strings(&[])), "{}");
    assert_eq!(object_of(&strings(&["\"a\":1", "\"b\":2"])), "{\"a\":1,\"b\":2}");
    assert_eq!(
        fn_object("\"/m\"", &vec![1, 2], &Some(3)),
        "{\"kind\":\"fn\",\"origin\":\"/m\",\"params\":[1,2],\"ret\":3}"
    );
    assert_eq!(
        fn_object("\"/m\"", &vec![], &None),
        "{\"kind\":\"fn\",\"origin\":\"/m\",\"params\":[],\"ret\":null}"
    );
    assert_eq!(
        class_object("\"C\"", "\"/m\"", 8, "{\"x\":1}"),
        "{\"kind\":\"class\",\"name\":\"C\",\"origin\":\"/m\",\"constructor\":8,\
\"fields\":{\"x\":1}}"
    );
    assert_eq!(
        interface_object("\"/m\"", "{}"),
        "{\"kind\":\"interface\",\"origin\":\"/m\",\"fields\":{}}"
    );
    assert_eq!(
        document_of("{}", "{\"v\":1}", &strings(&["A", "B"])),
        "{\"types\":{},\"values\":{\"v\":1},\"descriptors\":[A,B]}"
    );
}

#[test]
fn names_are_quoted_as_json_strings() {
    // The quoting is not the identity: the name comes back between quotes,
    // with its own quote and its line break escaped.
    let fields = vec![Field { name: "plain".to_string(), ty: 1 }, Field {
        name: "a\"b\nc".to_string(),
        ty: 2,
    }];
    assert_eq!(render_object(&fields), "{\"plain\":1,\"a\\\"b\\nc\":2}");
}

#[test]
fn modules_are_assembled_from_quoted_names() {
    assert_eq!(reexport_of("\"v\""), "exports[\"v\"] = source[\"v\"];\n");
    assert_eq!(module_of("\"./m.js\"", &strings(&[])), "const source = require(\"./m.js\");\n");
    assert_eq!(
        module_of("\"./m.js\"", &strings(&["one;\n", "two;\n"])),
        "const source = require(\"./m.js\");\none;\ntwo;\n"
    );
}
