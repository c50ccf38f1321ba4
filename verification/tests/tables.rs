use nintendo_formats::bcsv::definition::ColumnDefinition;
use nintendo_formats::bcsv::entry::{pack, unpack};
use nintendo_formats::bcsv::{BcsvError, DataType, DataValue, Table};
use nintendo_formats::endian::Endian;
use nintendo_formats::jsystem::bcsv::{
    BcsvError as JError, BcsvRow, BcsvTable, DataType as JType, DataValue as JValue,
};

fn numbers() -> Table {
    let mut t = Table::new();
    t.push_column(1, DataType::Int32, &DataValue::Int32(0)).unwrap();
    t.push_column(2, DataType::Int16, &DataValue::Int16(0)).unwrap();
    t.push_column(3, DataType::Int8, &DataValue::Int8(0)).unwrap();
    t.push_row(&mut vec![DataValue::Int32(-5), DataValue::Int16(300), DataValue::Int8(-1)]).unwrap();
    t.push_row(&mut vec![DataValue::Int32(70000), DataValue::Int16(-2), DataValue::Int8(9)]).unwrap();
    t
}

#[test]
fn table_rows_and_columns() {
    let mut t = numbers();
    assert_eq!(t.row_count(), 2);
    assert_eq!(t.column_count(), 3);
    assert_eq!(t.get(1, 0), Some(&DataValue::Int32(70000)));
    assert_eq!(t.get(2, 0), None);
    assert_eq!(t.get(0, 3), None);
    assert_eq!(t.row(0).unwrap(), &[DataValue::Int32(-5), DataValue::Int16(300), DataValue::Int8(-1)][..]);
    assert!(t.row(2).is_none());
    assert_eq!(t.column(1).unwrap(), vec![&DataValue::Int16(300), &DataValue::Int16(-2)]);
    assert!(t.column(3).is_none());
    assert_eq!(t.iter().len(), 2);
    assert_eq!(t.definitions()[2], ColumnDefinition { name: 3, bitmask: u32::MAX, offset: 2, shift: 0, ty: DataType::Int8 });
    t.push_column(4, DataType::OffsetString, &DataValue::OffsetString("x".to_string())).unwrap();
    assert_eq!(t.get(0, 3), Some(&DataValue::OffsetString("x".to_string())));
    assert_eq!(t.get(1, 3), Some(&DataValue::OffsetString("x".to_string())));
    assert!(t.set(1, 3, DataValue::OffsetString("y".to_string())));
    assert!(!t.set(1, 3, DataValue::Null));
    assert!(!t.set(5, 0, DataValue::Int32(1)));
    assert_eq!(t.get(1, 3), Some(&DataValue::OffsetString("y".to_string())));
    let (definition, values) = t.remove_column(1).unwrap();
    assert_eq!(definition.name, 2);
    assert_eq!(values, vec![DataValue::Int16(300), DataValue::Int16(-2)]);
    assert_eq!(t.column_count(), 3);
    assert_eq!(
        t.remove_row(0).unwrap(),
        vec![DataValue::Int32(-5), DataValue::Int8(-1), DataValue::OffsetString("x".to_string())]
    );
    assert!(t.remove_row(1).is_none());
    assert!(t.remove_column(3).is_none());
    assert_eq!(t.row_count(), 1);
    t.remove_column(0).unwrap();
    t.remove_column(0).unwrap();
    assert_eq!(t.row_count(), 1);
    t.remove_column(0).unwrap();
    assert_eq!((t.row_count(), t.column_count()), (0, 0));
}

#[test]
fn table_refuses_what_does_not_fit() {
    let mut t = numbers();
    let mut short = vec![DataValue::Int32(1)];
    assert_eq!(t.push_row(&mut short), Err(BcsvError::InvaildRowLength { expected: 3, actual: 1 }));
    assert_eq!(short.len(), 1);
    let mut wrong = vec![DataValue::Int32(1), DataValue::Int8(2), DataValue::Null];
    assert_eq!(
        t.push_row(&mut wrong),
        Err(BcsvError::InvaildRowType { column: 1, expected: DataType::Int16, actual: DataType::Int8 })
    );
    assert_eq!(
        t.push_column(9, DataType::Float, &DataValue::Null),
        Err(BcsvError::InvaildRowType { column: 3, expected: DataType::Float, actual: DataType::Null })
    );
    assert_eq!(t.row_count(), 2);
    let mut empty = Table::default();
    assert_eq!(empty.push_row(&mut Vec::new()), Ok(()));
    assert_eq!(empty.row_count(), 0);
    let mut wide = Table::new();
    for i in 0..0xFFFFu32 {
        wide.push_column(i, DataType::Null, &DataValue::Null).unwrap();
    }
    assert_eq!(wide.push_column(0, DataType::Null, &DataValue::Null), Err(BcsvError::TooManyColumns));
    assert_eq!(DataType::Float.default_value(), DataValue::Float(0));
    assert_eq!(DataType::OffsetString.default_value(), DataValue::OffsetString(String::new()));
    assert_eq!(DataValue::default(), DataValue::Null);
    assert_eq!(DataValue::Int16(4).ty(), DataType::Int16);
    assert_eq!(DataValue::InlineString("q".into()).duplicate(), DataValue::InlineString("q".into()));
}

#[test]
fn table_bytes_round_trip() {
    let t = numbers();
    for endian in [Endian::Big, Endian::Little] {
        let bytes = t.write(endian).unwrap();
        assert_eq!(bytes.len(), 96);
        assert!(bytes[66..].iter().all(|b| *b == b'@'));
        let back = Table::read(endian, &bytes).unwrap();
        assert_eq!(back.rows, t.rows);
        assert_eq!(back.fields, t.fields);
    }
    let bytes = t.write(Endian::Big).unwrap();
    assert_eq!(&bytes[..16], &[0, 0, 0, 2, 0, 0, 0, 3, 0, 0, 0, 52, 0, 0, 0, 7]);
    assert_eq!(&bytes[52..59], &[0xFF, 0xFF, 0xFF, 0xFB, 0x01, 0x2C, 0xFF]);
    assert_eq!(Table::read(Endian::Big, &bytes[..60]).err(), Some(BcsvError::UnexpectedEnd));
    assert_eq!(Table::read(Endian::Big, &bytes[..10]).err(), Some(BcsvError::UnexpectedEnd));
    let mut inline = Table::new();
    inline.push_column(1, DataType::InlineString, &DataValue::InlineString(String::new())).unwrap();
    inline.push_row(&mut vec![DataValue::InlineString("a".into())]).unwrap();
    assert_eq!(inline.write(Endian::Big), Err(BcsvError::InlineStringUnsupported));
}

#[test]
fn table_masks_and_shifts() {
    let d = ColumnDefinition { name: 0, bitmask: 0x0000_FF00, offset: 0, shift: 8, ty: DataType::Int32 };
    assert_eq!(unpack(0x1234_5678, &d, 32), 0x56);
    assert_eq!(pack(0x56, &d, 32), 0x5600);
    let all = ColumnDefinition { name: 0, bitmask: u32::MAX, offset: 0, shift: 1, ty: DataType::Int32 };
    assert_eq!(unpack(0xFFFF_FFFE, &all, 32), 0xFFFF_FFFF);
    assert_eq!(unpack(0x8000, &all, 16), 0xC000);
    assert_eq!(unpack(0x7F, &all, 8), 0x3F);
    assert_eq!(pack(0xC0, &all, 8), 0x80);
    // a column of bytes under a mask, a column of texts, and a column of floats
    let mut bytes = vec![0, 0, 0, 1, 0, 0, 0, 3, 0, 0, 0, 52, 0, 0, 0, 9];
    bytes.extend_from_slice(&[0, 0, 0, 1, 0, 0, 0, 0xF0, 0, 0, 4, 5]);
    bytes.extend_from_slice(&[0, 0, 0, 2, 0xFF, 0xFF, 0xFF, 0xFF, 0, 1, 0, 6]);
    bytes.extend_from_slice(&[0, 0, 0, 3, 0xFF, 0xFF, 0xFF, 0xFF, 0, 5, 0, 2]);
    // texts stand behind the data offset and one byte for each of the three cells
    bytes.extend_from_slice(&[0xAB, 0, 0, 0, 11, 0x3F, 0x80, 0, 0]);
    bytes.extend_from_slice(b"skip!hello\0more");
    let t = Table::read(Endian::Big, &bytes).unwrap();
    assert_eq!(
        t.rows,
        vec![vec![DataValue::Int8(-6), DataValue::OffsetString("hello\0".into()), DataValue::Float(0x3F80_0000)]]
    );
    bytes[26] = 8;
    assert_eq!(Table::read(Endian::Big, &bytes).err(), Some(BcsvError::ShiftTooLarge(8)));
    bytes[26] = 4;
    bytes[27] = 8;
    assert_eq!(Table::read(Endian::Big, &bytes).err(), Some(BcsvError::InvaildDataType(8)));
}

fn scenario() -> BcsvTable {
    let mut t = BcsvTable::new();
    t.push_column(10, JType::Int32, &JValue::Int32(0)).unwrap();
    t.push_column(11, JType::String, &JValue::String(String::new())).unwrap();
    t.push_column(12, JType::Byte, &JValue::Byte(0)).unwrap();
    t.push_row(vec![JValue::Int32(-3), JValue::String("one".into()), JValue::Byte(200)]).unwrap();
    t.push_row(vec![JValue::Int32(4), JValue::String("\u{30A2}".into()), JValue::Byte(1)]).unwrap();
    t
}

#[test]
fn jsystem_table_operations() {
    let mut t = scenario();
    assert_eq!((t.row_count(), t.column_count()), (2, 3));
    assert_eq!(t.definitions(), vec![(10, JType::Int32), (11, JType::String), (12, JType::Byte)]);
    assert_eq!(t.1[1].entry_offset, 4);
    assert_eq!(t.1[2].entry_offset, 8);
    assert_eq!(t.get(0, 2), Some(&JValue::Byte(200)));
    assert_eq!(t.get(0, 3), None);
    assert_eq!(t.get(2, 0), None);
    assert_eq!(t.row(1).unwrap()[0], JValue::Int32(4));
    assert!(t.row(2).is_none());
    assert_eq!(t.column(2).unwrap(), vec![&JValue::Byte(200), &JValue::Byte(1)]);
    assert!(t.column(3).is_none());
    assert_eq!(t.iter().len(), 2);
    assert_eq!(
        t.push_row(vec![JValue::Null]),
        Err(JError::InvalidRowLength { expected: 3, actual: 1 })
    );
    assert_eq!(
        t.push_row(vec![JValue::Int32(1), JValue::String("s".into()), JValue::Int16(1)]),
        Err(JError::InvalidRowDataType { index: 2, expected: JType::Byte, actual: JType::Int16 })
    );
    assert_eq!(
        t.push_column(1, JType::Float, &JValue::Null),
        Err(JError::InvalidRowDataType { index: 3, expected: JType::Float, actual: JType::Null })
    );
    assert_eq!(BcsvRow(vec![JValue::Null]).validate(&t.1), Err(JError::InvalidRowLength { expected: 3, actual: 1 }));
    t.remove_column(5);
    assert_eq!(t.column_count(), 3);
    t.remove_column(0);
    assert_eq!(t.row(0).unwrap(), &[JValue::String("one".into()), JValue::Byte(200)][..]);
    assert_eq!(t.remove_row(0).unwrap(), vec![JValue::String("one".into()), JValue::Byte(200)]);
    assert!(t.remove_row(1).is_none());
    assert_eq!(JValue::Float(7).to_type(), JType::Float);
}

#[test]
fn jsystem_table_bytes_round_trip() {
    let t = scenario();
    let bytes = t.save().unwrap();
    assert_eq!(&bytes[..16], &[0, 0, 0, 2, 0, 0, 0, 3, 0, 0, 0, 52, 0, 0, 0, 9]);
    assert_eq!(&bytes[52..61], &[0xFF, 0xFF, 0xFF, 0xFD, 0, 0, 0, 0, 200]);
    assert_eq!(&bytes[61..70], &[0, 0, 0, 4, 0, 0, 0, 4, 1]);
    assert_eq!(&bytes[70..], &[b'o', b'n', b'e', 0, 0x83, 0x41, 0]);
    let back = BcsvTable::read(&bytes).unwrap();
    assert_eq!(back.1, t.1);
    assert_eq!(back.0.len(), 2);
    assert_eq!(back.0[0].0, t.0[0].0);
    assert_eq!(back.0[1].0, t.0[1].0);
    assert_eq!(BcsvTable::read(&bytes[..69]).err(), Some(JError::UnexpectedEnd));
    assert_eq!(BcsvTable::read(&bytes[..71]).err(), Some(JError::UnexpectedEnd));
    assert_eq!(BcsvTable::read(&bytes[..12]).err(), Some(JError::UnexpectedEnd));
    let mut bad = bytes.clone();
    bad[16 + 11] = 9;
    assert_eq!(BcsvTable::read(&bad).err(), Some(JError::InvalidDataType(9)));
}

#[test]
fn column_values_from_a_closure() {
    let mut t = numbers();
    let counter = std::cell::Cell::new(10u32);
    let made = t.push_column_with(4, DataType::UInt32, || {
        counter.set(counter.get() + 1);
        DataValue::UInt32(counter.get())
    });
    assert_eq!(made, Ok(()));
    assert_eq!(t.column_count(), 4);
    assert_eq!(t.get(0, 3), Some(&DataValue::UInt32(11)));
    assert_eq!(t.get(1, 3), Some(&DataValue::UInt32(12)));
    assert_eq!(
        t.definitions()[3],
        ColumnDefinition { name: 4, bitmask: u32::MAX, offset: 3, shift: 0, ty: DataType::UInt32 }
    );
    let calls = std::cell::Cell::new(0u32);
    let refused = t.push_column_with(5, DataType::Int8, || {
        calls.set(calls.get() + 1);
        DataValue::Null
    });
    assert_eq!(
        refused,
        Err(BcsvError::InvaildRowType { column: 4, expected: DataType::Int8, actual: DataType::Null })
    );
    assert_eq!(calls.get(), 1);
    assert_eq!(t.column_count(), 4);
    assert_eq!(t.row(0).unwrap().len(), 4);
    let mut empty = Table::new();
    assert_eq!(empty.push_column_with(1, DataType::Float, || DataValue::Null), Ok(()));
    assert_eq!(empty.column_count(), 1);
}

#[test]
fn type_names_of_the_row_table() {
    let all = [
        (JType::Int32, "Int32"),
        (JType::InlineString, "InlineString"),
        (JType::Float, "Float"),
        (JType::UInt32, "UInt32"),
        (JType::Int16, "Int16"),
        (JType::Byte, "Byte"),
        (JType::String, "String"),
        (JType::Null, "Null"),
    ];
    for (ty, name) in all {
        assert_eq!(ty.name(), name);
        assert_eq!(JType::from_name(name), Some(ty));
    }
    assert_eq!(JType::from_name("int32"), None);
    assert_eq!(JType::from_name(""), None);
    assert_eq!(JType::from_name("Int8"), None);
}
