use mcproto::buffer::{ByteBuf, WriteBytes};
use mcproto::strings::{ReadString, WriteString};
use mcproto::var::{len_varint, DeserializeError, ReadVarInt, WriteVarInt};

#[test]
fn valid_varint_serialization() {
    let mut buf = ByteBuf::new();
    let mut id: i32 = 0x340;
    buf.write_var_int(id);
    assert_eq!(id, buf.read_var_int().unwrap());

    let mut buf = ByteBuf::new();
    id = 0x344445;
    buf.write_var_int(id);
    assert_eq!(id, buf.read_var_int().unwrap());

    id = -1;
    buf.write_var_int(id);
    assert_eq!(id, buf.read_var_int().unwrap());

    id = -2147483648;
    buf.write_var_int(id);
    assert_eq!(id, buf.read_var_int().unwrap());

    id = -1;
    buf.write_var_int(id);
    assert_eq!(id, buf.read_var_int().unwrap());

    id = 0;
    buf.write_var_int(id);
    assert_eq!(id, buf.read_var_int().unwrap());

    let mut i = 0;
    while i < 31 {
        buf = ByteBuf::new();
        id = (1 << i) - 1;
        buf.write_var_int(id);
        assert_eq!(id, buf.read_var_int().unwrap());
        i += 1;
    }
}

#[test]
fn valid_string_serialization() {
    let mut buf = ByteBuf::new();
    let mut s: String = "hello".to_string();
    buf.write_string(&s);
    let x: i32 = 0xFFFEE;
    buf.write_var_int(x);
    let res = buf.read_string();
    assert!(res.is_ok());
    assert_eq!(s, res.unwrap());
    assert_eq!(x, buf.read_var_int().unwrap());
    assert_eq!(9, buf.len());

    buf = ByteBuf::new();
    s = "Привет".to_string();
    buf.write_string(&s);
    let res = buf.read_string();
    assert!(res.is_ok());
    assert_eq!(s, res.unwrap());
    assert_eq!(13, buf.len());
}

#[test]
fn invalid_varint_serialization_too_small() {
    let mut buf = ByteBuf::new();

    let arr = [0xFF_u8; 3];
    buf.write_bytes(&arr);
    assert_eq!(arr.len(), buf.len());

    assert_eq!(DeserializeError::IoError, buf.read_var_int().unwrap_err());
}

#[test]
fn invalid_varint_serialization_too_big() {
    let mut buf = ByteBuf::new();

    let arr = [0xFF_u8; 5];
    buf.write_bytes(&arr);
    assert_eq!(arr.len(), buf.len());

    assert_eq!(DeserializeError::VarIntTooBig, buf.read_var_int().unwrap_err());
}

#[test]
fn varint_len_test() {
    let mut buf = ByteBuf::new();

    let x: i32 = 2147483647;
    buf.write_var_int(x);
    assert_eq!(5, buf.len());
    buf.write_var_int(0);
    assert_eq!(6, buf.len());
    buf.write_var_int(0xFF);
    assert_eq!(8, buf.len());
}

#[test]
fn encoded_length_table() {
    assert_eq!(1, len_varint(0));
    assert_eq!(5, len_varint(2147483647));
    assert_eq!(2, len_varint(0xFF));
    assert_eq!(5, len_varint(-1));
}

#[test]
fn read_primitives_and_cursor() {
    let mut buf = ByteBuf::new();
    buf.push(0xAB);
    buf.write_u16_be(25565);
    buf.write_i64_be(-2);
    assert_eq!(11, buf.len());
    assert_eq!(11, buf.remaining());
    assert!(buf.has_readable_bytes(11));
    assert!(!buf.has_readable_bytes(12));
    assert_eq!(Some(0xAB), buf.read_byte());
    assert_eq!(Some(25565), buf.read_u16_be());
    assert_eq!(Some(-2), buf.read_i64_be());
    assert!(buf.end());
    assert_eq!(None, buf.read_byte());
    // a failed read moves nothing and returns nothing
    assert_eq!(None, buf.read_bytes(1));
    assert_eq!(0, buf.remaining());
    assert_eq!(11, buf.len());
}

#[test]
fn read_bytes_exact_copy() {
    let mut buf = ByteBuf::from_slice(&[1, 2, 3, 4, 5]);
    assert_eq!(vec![1, 2], buf.read_bytes(2).unwrap());
    assert_eq!(None, buf.read_bytes(4));
    assert_eq!(vec![3, 4, 5], buf.read_bytes(3).unwrap());
    assert_eq!(&[1, 2, 3, 4, 5], buf.as_slice());
}

#[test]
fn string_error_variants() {
    // a declared length of zero is rejected
    let mut buf = ByteBuf::new();
    buf.write_var_int(0);
    assert_eq!(DeserializeError::InvalidLength, buf.read_string().unwrap_err());

    // bytes that are not UTF-8 are rejected
    let mut buf = ByteBuf::new();
    buf.write_var_int(1);
    buf.push(0xFF);
    assert_eq!(DeserializeError::InvalidUtf8, buf.read_string().unwrap_err());

    // a length the buffer cannot cover is rejected
    let mut buf = ByteBuf::new();
    buf.write_var_int(5);
    buf.push(b'a');
    assert_eq!(DeserializeError::IoError, buf.read_string().unwrap_err());
}

#[test]
fn byte_sink_and_source_traits() {
    let mut buf = ByteBuf::new();
    WriteVarInt::write_var_int(&mut buf, 300);
    WriteBytes::write_bytes(&mut buf, &[1, 2]);
    WriteString::write_string(&mut buf, "ok");
    assert_eq!(300, ReadVarInt::read_var_int(&mut buf).unwrap());
    assert_eq!(vec![1, 2], buf.read_bytes(2).unwrap());
    assert_eq!("ok", ReadString::read_string(&mut buf).unwrap());
    assert!(buf.end());
}
