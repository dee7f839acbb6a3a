use esp_ds::plan::burn_call;
use esp_ds::plan::deliveries;
use esp_ds::plan::dump_call;
use esp_ds::plan::flash_call;
use esp_ds::plan::folder_name;
use esp_ds::plan::key_source;
use esp_ds::plan::mac_call;
use esp_ds::plan::Action;
use esp_ds::plan::Destination;
use esp_ds::plan::KeySource;
use esp_ds::plan::Options;
use esp_ds::plan::PortRequired;
use esp_ds::text::chars_of;
use esp_ds::text::find;
use esp_ds::text::has_utf8_len;
use esp_ds::text::hex_word;
use esp_ds::text::is_white_space;
use esp_ds::text::joined;
use esp_ds::text::push_decimal;
use esp_ds::text::remove_colons;
use esp_ds::text::split_lines;
use esp_ds::text::split_white_space;
use esp_ds::text::string_of;
use esp_ds::text::trim;
use esp_ds::tools::check_success;
use esp_ds::tools::find_hmac_key;
use esp_ds::tools::find_mac;
use esp_ds::tools::get_mac_address;
use esp_ds::tools::read_efuse_hmac_key;
use esp_ds::tools::Task;
use esp_ds::tools::ToolError;
use esp_ds::tools::ToolOutput;

const DUMP_LINE: &str = "BLOCK_KEY2      (BLOCK6          ) [6 ] dump: 96b55379 6b3e61c3 533c5554 e09ae681 c55a9134 95e16edd 0c79a8dd 75be99dd";

const DUMPED_KEY: [u8; 32] = [
    0x79, 0x53, 0xb5, 0x96, 0xc3, 0x61, 0x3e, 0x6b, 0x54, 0x55, 0x3c, 0x53, 0x81, 0xe6, 0x9a, 0xe0,
    0x34, 0x91, 0x5a, 0xc5, 0xdd, 0x6e, 0xe1, 0x95, 0xdd, 0xa8, 0x79, 0x0c, 0xdd, 0x99, 0xbe, 0x75,
];

fn output(stdout: &[u8]) -> ToolOutput {
    ToolOutput {
        success: true,
        stdout: stdout.to_vec(),
        stderr: b"ignored".to_vec(),
    }
}

fn failure(stderr: &[u8]) -> ToolOutput {
    ToolOutput {
        success: false,
        stdout: DUMP_LINE.as_bytes().to_vec(),
        stderr: stderr.to_vec(),
    }
}

fn options() -> Options {
    Options {
        port: None,
        output: None,
        hmac_key_output: None,
        read_efuse_key: false,
        flash: false,
        burn_efuse: false,
    }
}

fn with_port() -> Options {
    let mut options = options();
    options.port = Some("/dev/ttyACM0".to_string());
    options
}

fn texts(parts: Vec<Vec<char>>) -> Vec<String> {
    parts.iter().map(|p| string_of(p)).collect()
}

#[test]
fn lines_of_text() {
    let lines = |text: &str| texts(split_lines(&chars_of(text)));
    assert_eq!(lines(""), vec![""]);
    assert_eq!(lines("a"), vec!["a"]);
    assert_eq!(lines("a\nbc\n"), vec!["a", "bc", ""]);
    assert_eq!(lines("\n\nx"), vec!["", "", "x"]);
}

#[test]
fn patterns_are_found() {
    let at = |text: &str, pattern: &str| find(&chars_of(text), &chars_of(pattern));
    assert_eq!(at("xdump: dump:", "dump:"), Some(1));
    assert_eq!(at("dum", "dump:"), None);
    assert_eq!(at("ddump:", "dump:"), Some(1));
    assert_eq!(at("aab", "ab"), Some(1));
    assert_eq!(at("abc", ""), Some(0));
    assert_eq!(at("", "a"), None);
}

#[test]
fn white_space_is_that_of_unicode() {
    for code in 0..=0x10ffffu32 {
        if let Some(c) = char::from_u32(code) {
            assert_eq!(is_white_space(c), c.is_whitespace());
        }
    }
}

#[test]
fn trimming_and_splitting() {
    for text in ["", "  ", " a b ", "\u{3000}x y\t", "\r\nab\r", "x"] {
        let chars = chars_of(text);
        assert_eq!(string_of(trim(&chars)), text.trim());
        let expected: Vec<&str> = text.split_whitespace().collect();
        assert_eq!(texts(split_white_space(&chars)), expected);
    }
}

#[test]
fn hexadecimal_words() {
    for token in [
        "96b55379", "ABCDEF01", "+1234567", "00000000", "ffffffff", "-1234567", "1234567", "123456789",
        "1234567g", "++123456", "", "é234567",
    ] {
        let expected = if token.len() == 8 {
            u32::from_str_radix(token, 16).ok()
        } else {
            None
        };
        assert_eq!(hex_word(&chars_of(token)), expected);
    }
    assert_eq!(hex_word(&chars_of("0c79a8dd")), Some(0x0c79_a8dd));
}

#[test]
fn utf8_lengths_and_colons() {
    for text in ["", "abc", "é€x", "\u{10ffff}\u{7ff}\u{800}\u{7f}\u{80}\u{ffff}\u{10000}"] {
        let chars = chars_of(text);
        assert!(has_utf8_len(&chars, text.len()));
        assert!(!has_utf8_len(&chars, text.len() + 1));
        if !text.is_empty() {
            assert!(!has_utf8_len(&chars, text.len() - 1));
        }
    }
    assert_eq!(string_of(&remove_colons(&chars_of(":a::b:"))), "ab");
}

#[test]
fn key_is_found_in_a_dump() {
    assert_eq!(find_hmac_key(DUMP_LINE), Some(DUMPED_KEY));
    let dump = format!(
        "espefuse v5\nBLOCK_KEY1 dump: 00000000 00000000 00000000 00000000 00000000 00000000 00000000 00000000\r\n{}\r\nBLOCK_KEY3 dump:\n",
        DUMP_LINE
    );
    assert_eq!(
        read_efuse_hmac_key(&output(dump.as_bytes())).unwrap(),
        DUMPED_KEY
    );
}

#[test]
fn tokens_that_are_no_words_are_passed_over() {
    let mut line = "BLOCK_KEY2 dump: xx 123 1234567z".to_string();
    for i in 0..9 {
        line.push_str(&format!(" 0000000{}", i));
    }
    let key = find_hmac_key(&line).unwrap();
    for i in 0..8 {
        assert_eq!(key[4 * i..4 * i + 4], [i as u8, 0, 0, 0]);
    }
}

#[test]
fn dumped_words_are_read_back() {
    let key: [u8; 32] = std::array::from_fn(|i| (i * 37 + 11) as u8);
    let mut line = "BLOCK_KEY2 [6 ] dump:".to_string();
    for word in key.chunks(4) {
        let word = u32::from_le_bytes([word[0], word[1], word[2], word[3]]);
        line.push_str(&format!(" {:08x}", word));
    }
    assert_eq!(find_hmac_key(&line), Some(key));
    let dump = format!("header\nBLOCK_KEY1 dump: 00000000\n{}\nend", line);
    assert_eq!(find_hmac_key(&dump), Some(key));
    for ending in ["\r", " ", "\r\r\t"] {
        assert_eq!(find_hmac_key(&format!("{}{}\nend", line, ending)), Some(key));
    }
    let marked = line.replace("[6 ]", "dump: of key");
    assert_eq!(find_hmac_key(&marked), Some(key));
    let worded = line.replace("[6 ]", "dump: 00000000");
    assert_ne!(find_hmac_key(&worded), Some(key));
}

#[test]
fn decimal_numbers() {
    for value in [0u128, 7, 10, 99, 1024, 3071, u64::MAX as u128, u128::MAX] {
        let mut text = "=".to_string();
        push_decimal(&mut text, value);
        assert_eq!(text, format!("={}", value));
    }
    assert_eq!(joined("ab", "é"), "abé");
}

#[test]
fn dump_without_the_key() {
    assert_eq!(find_hmac_key(""), None);
    assert_eq!(find_hmac_key("BLOCK_KEY2 dump: 96b55379"), None);
    assert_eq!(find_hmac_key(&DUMP_LINE.replace("BLOCK_KEY2", "BLOCK_KEY1")), None);
    assert_eq!(find_hmac_key(&DUMP_LINE.replace("dump:", "dump")), None);
    assert!(matches!(
        read_efuse_hmac_key(&output(b"nothing")),
        Err(ToolError::KeyNotFound)
    ));
    assert_eq!(
        ToolError::KeyNotFound.message(),
        "Could not find HMAC key in eFuse dump"
    );
}

#[test]
fn later_line_is_taken_if_the_first_is_incomplete() {
    let dump = format!("BLOCK_KEY2 dump: 00000001\n{}", DUMP_LINE);
    assert_eq!(find_hmac_key(&dump), Some(DUMPED_KEY));
}

#[test]
fn failed_tools_say_why() {
    let error = read_efuse_hmac_key(&failure(b"no \xff port")).unwrap_err();
    assert_eq!(error.message(), "espefuse dump failed: no \u{fffd} port");
    let error = get_mac_address(&failure("größer".as_bytes())).unwrap_err();
    assert_eq!(error.message(), "esptool read-mac failed: größer");
    assert!(check_success(&output(b""), Task::Flash).is_ok());
    let error = check_success(&failure(b"x"), Task::Flash).unwrap_err();
    assert_eq!(error.message(), "esptool failed: x");
    let error = check_success(&failure(b"y"), Task::Burn).unwrap_err();
    assert_eq!(error.message(), "espefuse failed: y");
    assert!(matches!(
        error,
        ToolError::Failed {
            task: Task::Burn,
            ..
        }
    ));
}

#[test]
fn address_is_found_in_a_report() {
    assert_eq!(
        find_mac("MAC: b8:f8:62:b4:da:18"),
        Some("b8f862b4da18".to_string())
    );
    let report = "esptool v5\nMAC: unknown\nBASE MAC:  b8:f8:62:b4:da:18 \r\nMAC: 00:00:00:00:00:00\n";
    assert_eq!(
        get_mac_address(&output(report.as_bytes())).unwrap(),
        "b8f862b4da18"
    );
    assert_eq!(find_mac("MAC:éééééé"), Some("éééééé".to_string()));
    assert_eq!(find_mac("MAC: b8:f8:62:b4:da"), None);
    assert!(matches!(
        get_mac_address(&output(b"mac: b8:f8:62:b4:da:18")),
        Err(ToolError::MacNotFound)
    ));
    assert_eq!(ToolError::MacNotFound.message(), "Could not find MAC address");
}

#[test]
fn folders_are_named_by_address() {
    assert_eq!(folder_name("b8f862b4da18"), "esp32c3-b8f862b4da18");
}

#[test]
fn tool_calls() {
    let call = flash_call("/dev/ttyACM0");
    assert_eq!(call.program, "esptool");
    assert_eq!(
        call.args,
        vec![
            "--chip",
            "esp32c3",
            "--port",
            "/dev/ttyACM0",
            "write_flash",
            "0xD000",
            "/tmp/esp_ds_data.bin"
        ]
    );
    assert_eq!(call.file, Some("/tmp/esp_ds_data.bin".to_string()));
    let call = burn_call("COM3");
    assert_eq!(call.program, "espefuse");
    assert_eq!(
        call.args,
        vec![
            "--port",
            "COM3",
            "burn_key",
            "BLOCK_KEY2",
            "/tmp/esp_ds_hmac_key.bin",
            "HMAC_DOWN_DIGITAL_SIGNATURE",
            "--no-read-protect"
        ]
    );
    assert_eq!(call.file, Some("/tmp/esp_ds_hmac_key.bin".to_string()));
    let call = dump_call("COM3");
    assert_eq!(call.program, "espefuse");
    assert_eq!(call.args, vec!["--port", "COM3", "dump"]);
    assert_eq!(call.file, None);
    let call = mac_call("COM3");
    assert_eq!(call.program, "esptool");
    assert_eq!(call.args, vec!["--port", "COM3", "read-mac"]);
}

#[test]
fn key_sources() {
    assert_eq!(key_source(&options()), Ok(KeySource::Generated));
    assert_eq!(key_source(&with_port()), Ok(KeySource::Generated));
    let mut read = with_port();
    read.read_efuse_key = true;
    assert_eq!(key_source(&read), Ok(KeySource::Efuse));
    read.port = None;
    assert_eq!(key_source(&read), Err(PortRequired));
    assert_eq!(
        PortRequired.message(),
        "--port required when reading from eFuse"
    );
}

#[test]
fn deliveries_without_a_port() {
    let actions = deliveries(&options());
    assert_eq!(actions.len(), 1);
    assert!(matches!(&actions[0], Action::SaveImage(Destination::Stdout)));
    let mut full = options();
    full.output = Some("image.bin".to_string());
    full.hmac_key_output = Some("key.bin".to_string());
    full.flash = true;
    full.burn_efuse = true;
    let actions = deliveries(&full);
    assert_eq!(actions.len(), 4);
    assert!(matches!(&actions[0], Action::SaveImage(Destination::File(p)) if p == "image.bin"));
    assert!(matches!(&actions[1], Action::SaveKey(Destination::File(p)) if p == "key.bin"));
    assert!(matches!(&actions[2], Action::FlashNeedsPort));
    assert!(matches!(&actions[3], Action::BurnNeedsPort));
}

#[test]
fn deliveries_with_a_port() {
    let mut full = with_port();
    full.output = Some("image.bin".to_string());
    full.hmac_key_output = Some("key.bin".to_string());
    full.flash = true;
    full.burn_efuse = true;
    let actions = deliveries(&full);
    assert_eq!(actions.len(), 4);
    assert!(matches!(&actions[0], Action::SaveImage(Destination::Folder(n)) if n == "ds_data.bin"));
    assert!(matches!(&actions[1], Action::SaveKey(Destination::Folder(n)) if n == "ds_hmac_key.bin"));
    assert!(matches!(&actions[2], Action::Flash(call) if call.program == "esptool"));
    assert!(matches!(&actions[3], Action::Burn(call) if call.program == "espefuse"));
    full.flash = false;
    full.burn_efuse = false;
    assert_eq!(deliveries(&full).len(), 2);
}
