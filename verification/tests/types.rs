use sonde::types::{lookup, map_type, ForeignType, Scalar, UnsupportedTypeError};

fn unsupported(spelling: &str) -> UnsupportedTypeError {
    UnsupportedTypeError {
        spelling: spelling.to_string(),
    }
}

#[test]
fn every_entry_of_the_table() {
    let table = [
        ("char", Scalar::Char, "c_char"),
        ("short", Scalar::Short, "c_short"),
        ("int", Scalar::Int, "c_int"),
        ("long", Scalar::Long, "c_long"),
        ("long long", Scalar::LongLong, "c_longlong"),
        ("int8_t", Scalar::Int8, "i8"),
        ("int16_t", Scalar::Int16, "i16"),
        ("int32_t", Scalar::Int32, "i32"),
        ("int64_t", Scalar::Int64, "i64"),
        ("intptr_t", Scalar::IntPtr, "isize"),
        ("uint8_t", Scalar::UInt8, "u8"),
        ("uint16_t", Scalar::UInt16, "u16"),
        ("uint32_t", Scalar::UInt32, "u32"),
        ("uint64_t", Scalar::UInt64, "u64"),
        ("uintptr_t", Scalar::UIntPtr, "usize"),
        ("float", Scalar::Float, "c_float"),
        ("double", Scalar::Double, "c_double"),
    ];
    for (spelling, scalar, token) in table {
        assert_eq!(lookup(spelling), Some(scalar));
        assert_eq!(map_type(spelling), Ok(ForeignType { scalar, depth: 0 }));
        assert_eq!(scalar.token(), token);
        assert_eq!(map_type(spelling).unwrap().text(), token);
    }
}

#[test]
fn pointer_markers_become_pointer_levels() {
    assert_eq!(
        map_type("char *"),
        Ok(ForeignType {
            scalar: Scalar::Char,
            depth: 1
        })
    );
    assert_eq!(
        map_type("char*"),
        Ok(ForeignType {
            scalar: Scalar::Char,
            depth: 1
        })
    );
    assert_eq!(
        map_type("char **"),
        Ok(ForeignType {
            scalar: Scalar::Char,
            depth: 2
        })
    );
    assert_eq!(
        map_type("long long * * "),
        Ok(ForeignType {
            scalar: Scalar::LongLong,
            depth: 2
        })
    );
    assert_eq!(
        map_type("char\t*"),
        Ok(ForeignType {
            scalar: Scalar::Char,
            depth: 1
        })
    );
    assert_eq!(
        map_type("int\t"),
        Ok(ForeignType {
            scalar: Scalar::Int,
            depth: 0
        })
    );
    assert_eq!(
        map_type("long long\r\n*\t* "),
        Ok(ForeignType {
            scalar: Scalar::LongLong,
            depth: 2
        })
    );
    assert_eq!(map_type("char *").unwrap().text(), "*mut c_char");
    assert_eq!(map_type("uint32_t ***").unwrap().text(), "*mut *mut *mut u32");
    assert_eq!(
        ForeignType {
            scalar: Scalar::Double,
            depth: 0
        }
        .text(),
        "c_double"
    );
}

#[test]
fn spelling_outside_the_table_is_an_error() {
    assert_eq!(map_type("string"), Err(unsupported("string")));
    assert_eq!(map_type("string *"), Err(unsupported("string *")));
    assert_eq!(map_type(""), Err(unsupported("")));
    assert_eq!(map_type("*"), Err(unsupported("*")));
    assert_eq!(map_type("unsigned int"), Err(unsupported("unsigned int")));
    assert_eq!(map_type("Int"), Err(unsupported("Int")));
    assert_eq!(map_type(" int"), Err(unsupported(" int")));
    assert_eq!(map_type("int\u{b}"), Err(unsupported("int\u{b}")));
    assert_eq!(map_type("string\t*"), Err(unsupported("string\t*")));
    assert_eq!(map_type("char * const"), Err(unsupported("char * const")));
    assert_eq!(map_type("longlong"), Err(unsupported("longlong")));
    assert_eq!(lookup("string"), None);
    assert_eq!(lookup("char "), None);
}
