use yggdrasil::pt_args::{encode_pt_args, encode_server_transport_options};

#[test]
fn encode_pt_args_basic() {
    let args = vec![
        ("cert".to_string(), "ABC123".to_string()),
        ("iat-mode".to_string(), "0".to_string()),
    ];
    assert_eq!(encode_pt_args(&args), "cert=ABC123;iat-mode=0");
}

#[test]
fn encode_pt_args_escaping() {
    let args = vec![
        ("a".to_string(), r"semi;equal=back\slash".to_string()),
    ];
    assert_eq!(encode_pt_args(&args), r"a=semi\;equal\=back\\slash");
}

#[test]
fn encode_pt_args_escapes_keys_too() {
    // pt-spec §3.5 requires escaping in keys as well as values; an
    // unescaped key would corrupt the whole arg string.
    let args = vec![
        (r"we;ird=k\ey".to_string(), "val".to_string()),
    ];
    assert_eq!(encode_pt_args(&args), r"we\;ird\=k\\ey=val");
}

#[test]
fn encode_pt_args_empty() {
    assert_eq!(encode_pt_args(&[]), "");
}

#[test]
fn encode_pt_args_single() {
    let args = vec![("key".to_string(), "val".to_string())];
    assert_eq!(encode_pt_args(&args), "key=val");
}

#[test]
fn encode_server_transport_options_basic() {
    let opts = vec![
        ("iat-mode".to_string(), "1".to_string()),
        ("drain".to_string(), "yes".to_string()),
    ];
    assert_eq!(
        encode_server_transport_options("obfs4", &opts),
        "obfs4:iat-mode=1;obfs4:drain=yes"
    );
}

#[test]
fn encode_server_transport_options_escaping() {
    let opts = vec![
        (r"k:ey".to_string(), r"semi;colon:back\slash".to_string()),
    ];
    assert_eq!(
        encode_server_transport_options("obfs4", &opts),
        r"obfs4:k\:ey=semi\;colon\:back\\slash"
    );
}

#[test]
fn encode_server_transport_options_empty() {
    assert_eq!(encode_server_transport_options("obfs4", &[]), "");
}

#[test]
fn server_option_keys_keep_their_equal_signs() {
    // An equal sign is not escaped, so these two cannot be told apart.
    let a = vec![("a=b".to_string(), "c".to_string())];
    let b = vec![("a".to_string(), "b=c".to_string())];
    assert_eq!(encode_server_transport_options("x", &a), encode_server_transport_options("x", &b));
    // In the arguments of a connection it is, and they can.
    assert_ne!(encode_pt_args(&a), encode_pt_args(&b));
}
