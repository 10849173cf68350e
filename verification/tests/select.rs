use fastpeq::cli::{raw_step, RawOp};
use fastpeq::hardware::{DetectedDevice, DeviceInfo};
use fastpeq::select::{parse_hex16, resolve_device, resolve_iface};
use fastpeq::text::{parse_i32, parse_index};

fn device(id: &str, name: &str) -> DetectedDevice {
    DetectedDevice {
        id: id.to_string(),
        name: name.to_string(),
        manufacturer: "M".to_string(),
        model: "X".to_string(),
        max_filters: 8,
        user_pregain: true,
    }
}

fn iface(vid: u16, pid: u16, path: &str, usage: u16) -> DeviceInfo {
    DeviceInfo {
        vendor_id: vid,
        product_id: pid,
        product: String::new(),
        manufacturer: String::new(),
        path: path.to_string(),
        usage_page: usage,
    }
}

fn strings(v: &[&str]) -> Vec<String> {
    v.iter().map(|s| s.to_string()).collect()
}

#[test]
fn numbers_read_as_std_reads_them() {
    assert_eq!(parse_index("12"), Some(12));
    assert_eq!(parse_index("+3"), Some(3));
    assert_eq!(parse_index("-3"), None);
    assert_eq!(parse_index(""), None);
    assert_eq!(parse_index("1a"), None);
    assert_eq!(parse_i32("-2147483648"), Some(i32::MIN));
    assert_eq!(parse_i32("2147483647"), Some(i32::MAX));
    assert_eq!(parse_i32("2147483648"), None);
    assert_eq!(parse_i32("-0"), Some(0));
    assert_eq!(parse_i32("+250"), Some(250));
    assert_eq!(parse_i32("-+5"), None);
    assert_eq!(parse_i32("-"), None);
    for s in ["", "+", "-", "7", "-7", "+7", "x", "99999999999", "-2147483649"] {
        assert_eq!(parse_i32(s), s.parse::<i32>().ok(), "{s}");
        assert_eq!(parse_index(s), s.parse::<usize>().ok(), "{s}");
    }
}

#[test]
fn hex_ids_read_as_from_str_radix() {
    for s in ["2e3c", "FF00", "+ff", "ffff", "10000", "", "+", "-1", "g", "0"] {
        assert_eq!(parse_hex16(s), u16::from_str_radix(s, 16).ok(), "{s}");
    }
}

#[test]
fn devices_resolve_by_id_index_or_unique_name() {
    let ds = vec![device("p1", "FiiO KA17"), device("p2", "MOONDROP DHA15")];
    assert_eq!(resolve_device(&ds, "p2").unwrap().name, "MOONDROP DHA15");
    assert_eq!(resolve_device(&ds, "0").unwrap().id, "p1");
    assert_eq!(resolve_device(&ds, "ka17").unwrap().id, "p1");
    assert_eq!(resolve_device(&ds, "dha").unwrap().id, "p2");
}

#[test]
fn device_selectors_that_fail_say_why() {
    let ds = vec![device("p1", "FiiO KA17"), device("p2", "MOONDROP DHA15")];
    assert_eq!(
        resolve_device(&ds, "5").unwrap_err(),
        "no device at index 5 — `list` shows 2"
    );
    assert_eq!(
        resolve_device(&ds, "qx").unwrap_err(),
        "no detected device matches `qx` (2 detected — see `list`)"
    );
    assert_eq!(
        resolve_device(&ds, "O").unwrap_err(),
        "`O` is ambiguous: FiiO KA17, MOONDROP DHA15"
    );
    assert_eq!(
        resolve_device(&Vec::new(), "x").unwrap_err(),
        "no detected device matches `x` (0 detected — see `list`)"
    );
}

#[test]
fn interfaces_resolve_by_path_index_or_ids() {
    let is = vec![
        iface(0x2e3c, 0x5310, "/a", 0xff00),
        iface(0x2e3c, 0x5310, "/b", 0x000c),
        iface(0x35d8, 0x011d, "/c", 0xffa0),
    ];
    assert_eq!(resolve_iface(&is, "/b").unwrap(), "/b");
    assert_eq!(resolve_iface(&is, "2").unwrap(), "/c");
    assert_eq!(resolve_iface(&is, "35d8:011d").unwrap(), "/c");
    assert_eq!(resolve_iface(&is, "2E3C:5310:ff00").unwrap(), "/a");
    assert_eq!(resolve_iface(&is, "2e3c:5310:c").unwrap(), "/b");
}

#[test]
fn interface_selectors_that_fail_say_why() {
    let is = vec![
        iface(0x2e3c, 0x5310, "/a", 0xff00),
        iface(0x2e3c, 0x5310, "/b", 0x000c),
    ];
    assert_eq!(
        resolve_iface(&is, "9").unwrap_err(),
        "no interface at index 9 — `enumerate` shows 2"
    );
    assert_eq!(
        resolve_iface(&is, "2e3c:5310").unwrap_err(),
        "`2e3c:5310` matches 2 interfaces (usage pages 0xff00, 0x000c) — add :<usage_page> or use the index"
    );
    assert_eq!(
        resolve_iface(&is, "2e3c:5311").unwrap_err(),
        "no HID interface matches `2e3c:5311`"
    );
    assert_eq!(
        resolve_iface(&is, "2e3c:5310:zz").unwrap_err(),
        "bad usage page `zz`"
    );
    assert_eq!(
        resolve_iface(&is, "2e3c").unwrap_err(),
        "can't resolve interface `2e3c` — use an index, vid:pid[:usage_page], or a path"
    );
    assert_eq!(
        resolve_iface(&is, "a:b:c:d").unwrap_err(),
        "can't resolve interface `a:b:c:d` — use an index, vid:pid[:usage_page], or a path"
    );
}

#[test]
fn raw_operations_are_read_one_at_a_time() {
    let args = strings(&["send", "4b 01", "read", "250", "read", "readf", "05", "sendf", "0x0a0b"]);
    let (op, next) = raw_step(&args, 0, false).unwrap().unwrap();
    assert_eq!((op, next), (RawOp::Send(vec![0x4b, 0x01]), 2));
    let (op, next) = raw_step(&args, next, true).unwrap().unwrap();
    assert_eq!((op, next), (RawOp::Read(250), 4));
    let (op, next) = raw_step(&args, next, true).unwrap().unwrap();
    assert_eq!((op, next), (RawOp::Read(1000), 5));
    let (op, next) = raw_step(&args, next, true).unwrap().unwrap();
    assert_eq!((op, next), (RawOp::ReadFeature(5, 64), 7));
    let (op, next) = raw_step(&args, next, true).unwrap().unwrap();
    assert_eq!((op, next), (RawOp::SendFeature(vec![0x0a, 0x0b]), 9));
    assert_eq!(raw_step(&args, next, true), Ok(None));
    let args = strings(&["readf", "07", "16"]);
    assert_eq!(raw_step(&args, 0, false), Ok(Some((RawOp::ReadFeature(7, 16), 3))));
}

#[test]
fn malformed_raw_operations_stop_the_run() {
    assert_eq!(
        raw_step(&[], 0, false),
        Err("no raw ops given — send <hex>, sendf <hex>, read [<ms>], readf <id> [<len>]".to_string())
    );
    let cases: [(&[&str], &str); 6] = [
        (&["send"], "send needs a hex payload"),
        (&["sendf"], "sendf needs a hex payload"),
        (&["readf"], "readf needs a report id (hex)"),
        (&["readf", "0102"], "readf report id must be one byte"),
        (&["send", "4b0"], "odd number of hex digits in `4b0`"),
        (&["write", "00"], "unknown raw op `write` — send, sendf, read, readf"),
    ];
    for (args, msg) in cases {
        assert_eq!(raw_step(&strings(args), 0, false), Err(msg.to_string()));
    }
}
