use polished_boot::interrupts::{
    answer, disk_interrupt_handler, keyboard_interrupt_handler, mouse_interrupt_handler,
    network_interrupt_handler, other_hardware_interrupt_handler, reports_key_press,
    setup_hardware_interrupts, timer_interrupt_handler, usb_interrupt_handler, HardwareInterrupt,
    InterruptResponse,
};

fn line(response: InterruptResponse) -> Option<String> {
    response.message.map(|line| String::from_utf8(line.as_bytes().to_vec()).unwrap())
}

#[test]
fn handlers_are_registered_at_their_vectors() {
    assert_eq!(
        setup_hardware_interrupts(),
        vec![
            (32, HardwareInterrupt::Timer),
            (33, HardwareInterrupt::Keyboard),
            (44, HardwareInterrupt::Mouse),
            (46, HardwareInterrupt::Disk),
            (43, HardwareInterrupt::Network),
            (55, HardwareInterrupt::Usb),
            (47, HardwareInterrupt::Other),
        ]
    );
}

#[test]
fn registered_vectors_are_distinct_hardware_vectors() {
    let mut vectors: Vec<u8> =
        setup_hardware_interrupts().iter().map(|handler| handler.0).collect();
    assert!(vectors.iter().all(|vector| *vector >= 32));
    vectors.sort_unstable();
    vectors.dedup();
    assert_eq!(vectors.len(), 7);
}

#[test]
fn timer_ends_in_silence() {
    let response = timer_interrupt_handler();
    assert!(response.message.is_none());
    assert!(response.end_of_interrupt);
}

#[test]
fn other_sources_print_and_do_not_end() {
    let cases = [
        (mouse_interrupt_handler(), "[INFO] INT 0x2C: Mouse interrupt\r\n"),
        (disk_interrupt_handler(), "[INFO] INT 0x2E: Disk controller interrupt\r\n"),
        (network_interrupt_handler(), "[INFO] INT 0x2B: Network card interrupt\r\n"),
        (usb_interrupt_handler(), "[INFO] INT 0x37: USB controller interrupt\r\n"),
        (
            other_hardware_interrupt_handler(),
            "[INFO] INT 0x2F: Other hardware device interrupt\r\n",
        ),
    ];
    for (response, expected) in cases {
        assert!(!response.end_of_interrupt);
        assert_eq!(line(response).as_deref(), Some(expected));
    }
}

#[test]
fn key_press_prints_scancode_and_character() {
    let response = keyboard_interrupt_handler(0x1E, Some(b'a'));
    assert!(response.end_of_interrupt);
    assert_eq!(
        line(response).as_deref(),
        Some("[INFO] INT 0x21: Keyboard interrupt, scancode: 0x1e | ASCII: 'a'\r")
    );
    assert_eq!(
        line(keyboard_interrupt_handler(0x39, Some(b' '))).as_deref(),
        Some("[INFO] INT 0x21: Keyboard interrupt, scancode: 0x39 | ASCII: ' '\r")
    );
    assert_eq!(
        line(keyboard_interrupt_handler(0x02, Some(b'~'))).as_deref(),
        Some("[INFO] INT 0x21: Keyboard interrupt, scancode: 0x2 | ASCII: '~'\r")
    );
}

#[test]
fn every_scancode_is_printed_as_the_formatter_prints_it() {
    for scancode in 0..0x80u8 {
        assert_eq!(
            line(keyboard_interrupt_handler(scancode, None)),
            Some(format!(
                "[INFO] INT 0x21: Keyboard interrupt, scancode: {:#x} | ASCII: Unknown\r",
                scancode
            ))
        );
    }
}

#[test]
fn character_that_cannot_be_shown_is_unknown() {
    for code in 0..=255u8 {
        let expected = if code.is_ascii_graphic() || code == b' ' {
            format!(
                "[INFO] INT 0x21: Keyboard interrupt, scancode: 0x1c | ASCII: '{}'\r",
                code as char
            )
        } else {
            format!("[INFO] INT 0x21: Keyboard interrupt, scancode: {:#x} | ASCII: Unknown\r", 0x1C)
        };
        assert_eq!(line(keyboard_interrupt_handler(0x1C, Some(code))), Some(expected));
    }
}

#[test]
fn released_keys_end_in_silence() {
    for scancode in 0x80..=255u8 {
        if scancode != 0xFA {
            let response = keyboard_interrupt_handler(scancode, Some(b'a'));
            assert!(response.end_of_interrupt);
            assert_eq!(line(response), None);
            assert!(!reports_key_press(scancode));
        }
    }
    assert!(reports_key_press(0x7F));
}

#[test]
fn acknowledgement_is_not_a_key() {
    let response = keyboard_interrupt_handler(0xFA, Some(b'a'));
    assert!(response.end_of_interrupt);
    assert_eq!(
        line(response).as_deref(),
        Some("[INFO] INT 0x21: Keyboard interrupt, received 0xFA (possible ACK, not a keypress)\r")
    );
    assert!(!reports_key_press(0xFA));
}

#[test]
fn each_source_is_answered_by_its_handler_and_names_its_vector() {
    for (vector, source) in setup_hardware_interrupts() {
        let response = answer(source, 0x1E, Some(b'a'));
        let (expected, ends) = match source {
            HardwareInterrupt::Timer => (line(timer_interrupt_handler()), true),
            HardwareInterrupt::Keyboard => {
                (line(keyboard_interrupt_handler(0x1E, Some(b'a'))), true)
            }
            HardwareInterrupt::Mouse => (line(mouse_interrupt_handler()), false),
            HardwareInterrupt::Disk => (line(disk_interrupt_handler()), false),
            HardwareInterrupt::Network => (line(network_interrupt_handler()), false),
            HardwareInterrupt::Usb => (line(usb_interrupt_handler()), false),
            HardwareInterrupt::Other => (line(other_hardware_interrupt_handler()), false),
        };
        assert_eq!(response.end_of_interrupt, ends);
        let text = line(response);
        assert_eq!(text, expected);
        if let Some(text) = text {
            assert!(text.starts_with(&format!("[INFO] INT 0x{vector:02X}:")));
        }
    }
}
