use dtb::{Error, Result, StructItem};

fn assert_value_errors(method: fn(&StructItem<'static>) -> Result<&'static [u8]>) {
    assert_eq!(
        method(&StructItem::BeginNode { name: "node" }).unwrap_err(),
        Error::BadStructItemType
    );
    assert_eq!(method(&StructItem::EndNode).unwrap_err(), Error::BadStructItemType);
}

#[test]
fn test_is_begin_node() {
    assert_eq!(StructItem::BeginNode { name: "" }.is_begin_node(), true);
    assert_eq!(
        StructItem::Property {
            name: "",
            value: &[],
        }
        .is_begin_node(),
        false
    );
    assert_eq!(StructItem::EndNode.is_begin_node(), false);
}

#[test]
fn test_is_property() {
    assert_eq!(StructItem::BeginNode { name: "" }.is_property(), false);
    assert_eq!(
        StructItem::Property {
            name: "",
            value: &[],
        }
        .is_property(),
        true
    );
    assert_eq!(StructItem::EndNode.is_property(), false);
}

#[test]
fn test_name() {
    assert_eq!(StructItem::BeginNode { name: "node" }.name().unwrap(), "node");
    assert_eq!(
        StructItem::Property {
            name: "property",
            value: &[],
        }
        .name()
        .unwrap(),
        "property"
    );
    assert_eq!(StructItem::EndNode.name().unwrap_err(), Error::BadStructItemType);
}

#[test]
fn test_value() {
    assert_value_errors(|item| item.value());
    assert_eq!(
        StructItem::Property {
            name: "property",
            value: &[1, 2, 3],
        }
        .value()
        .unwrap(),
        &[1, 2, 3]
    );
}

#[test]
fn test_value_str() {
    assert_eq!(
        StructItem::BeginNode { name: "node" }.value_str().unwrap_err(),
        Error::BadStructItemType
    );
    assert_eq!(StructItem::EndNode.value_str().unwrap_err(), Error::BadStructItemType);
    assert_eq!(
        StructItem::Property {
            name: "property",
            value: "".as_bytes(),
        }
        .value_str()
        .unwrap_err(),
        Error::BadValueStr
    );
    assert_eq!(
        StructItem::Property {
            name: "property",
            value: "value".as_bytes(),
        }
        .value_str()
        .unwrap_err(),
        Error::BadValueStr
    );
    assert_eq!(
        StructItem::Property {
            name: "property",
            value: "value\0".as_bytes(),
        }
        .value_str()
        .unwrap(),
        "value"
    );
}

#[test]
fn test_value_str_list() {
    let mut buf = [""; 2];
    let mut small_buf = [""; 1];
    assert_eq!(
        StructItem::BeginNode { name: "node" }.value_str_list(&mut buf).unwrap_err(),
        Error::BadStructItemType
    );
    assert_eq!(
        StructItem::EndNode.value_str_list(&mut buf).unwrap_err(),
        Error::BadStructItemType
    );
    assert_eq!(
        StructItem::Property {
            name: "property",
            value: "".as_bytes(),
        }
        .value_str_list(&mut buf)
        .unwrap_err(),
        Error::BadValueStr
    );
    assert_eq!(
        StructItem::Property {
            name: "property",
            value: "value".as_bytes(),
        }
        .value_str_list(&mut buf)
        .unwrap_err(),
        Error::BadValueStr
    );
    assert_eq!(
        StructItem::Property {
            name: "property",
            value: "part1\0part2\0".as_bytes(),
        }
        .value_str_list(&mut small_buf)
        .unwrap_err(),
        Error::BufferTooSmall
    );
    assert_eq!(
        StructItem::Property {
            name: "property",
            value: "part1\0part2\0".as_bytes(),
        }
        .value_str_list(&mut buf)
        .unwrap(),
        &["part1", "part2"]
    );
}

#[test]
fn test_value_u32_list() {
    let mut buf = [0u32; 3];
    let mut small_buf = [0u32; 2];
    assert_eq!(
        StructItem::BeginNode { name: "node" }.value_u32_list(&mut buf).unwrap_err(),
        Error::BadStructItemType
    );
    assert_eq!(
        StructItem::EndNode.value_u32_list(&mut buf).unwrap_err(),
        Error::BadStructItemType
    );
    assert_eq!(
        StructItem::Property {
            name: "property",
            value: &[1, 2, 3],
        }
        .value_u32_list(&mut buf)
        .unwrap_err(),
        Error::BadU32List
    );
    assert_eq!(
        StructItem::Property {
            name: "property",
            value: &[],
        }
        .value_u32_list(&mut buf)
        .unwrap(),
        &[]
    );
    assert_eq!(
        StructItem::Property {
            name: "property",
            value: &[0, 0, 0, 1, 0, 0, 0, 2, 0, 0, 0, 3],
        }
        .value_u32_list(&mut small_buf)
        .unwrap_err(),
        Error::BufferTooSmall
    );
    assert_eq!(
        StructItem::Property {
            name: "property",
            value: &[0, 0, 0, 1, 0, 0, 0, 2, 0, 0, 0, 3],
        }
        .value_u32_list(&mut buf)
        .unwrap(),
        &[1, 2, 3]
    );
}

fn assert_begin_node_accessor(
    accessor: fn(item: StructItem<'static>) -> Result<&'static str>,
    name: &'static str,
    expected: &'static str,
) {
    assert_eq!(accessor(StructItem::BeginNode { name: name }).unwrap(), expected);
    assert_eq!(
        accessor(StructItem::Property {
            name: name,
            value: &[],
        })
        .unwrap_err(),
        Error::BadStructItemType
    );
    assert_eq!(accessor(StructItem::EndNode).unwrap_err(), Error::BadStructItemType);
}

#[test]
fn test_node_name() {
    assert_begin_node_accessor(|item| item.node_name(), "node_name@unit_address", "node_name");
    assert_begin_node_accessor(|item| item.node_name(), "node_name", "node_name");
}

#[test]
fn test_unit_address() {
    assert_begin_node_accessor(
        |item| item.unit_address(),
        "node_name@unit_address",
        "unit_address",
    );
    assert_begin_node_accessor(|item| item.unit_address(), "node_name", "");
}
