//! Hardware interrupts: which vector each source is registered at, and how each
//! interrupt is answered.

use crate::line::{Line, LINE_CAPACITY};
use vstd::prelude::*;
use vstd::utf8::is_ascii_chars;

verus! {

/// First interrupt vector that is not reserved for processor exceptions.
pub const FIRST_HARDWARE_VECTOR: u8 = 32;

/// The byte by which the keyboard acknowledges a command.
pub const KEYBOARD_ACK: u8 = 0xFA;

/// A source of hardware interrupts.
#[derive(Debug, Clone, Copy, PartialEq, Eq, Structural)]
pub enum HardwareInterrupt {
    Timer,
    Keyboard,
    Mouse,
    Disk,
    Network,
    Usb,
    Other,
}

/// How an interrupt is answered.
pub struct InterruptResponse {
    /// The line that is printed, if one is.
    pub message: Option<Line>,
    /// The interrupt controller is told that the interrupt has been handled.
    pub end_of_interrupt: bool,
}

/// The vector that a source is registered at.
pub open spec fn vector_of(source: HardwareInterrupt) -> u8 {
    match source {
        HardwareInterrupt::Timer => 32,
        HardwareInterrupt::Keyboard => 33,
        HardwareInterrupt::Mouse => 44,
        HardwareInterrupt::Disk => 46,
        HardwareInterrupt::Network => 43,
        HardwareInterrupt::Usb => 55,
        HardwareInterrupt::Other => 47,
    }
}

/// The sources of hardware interrupts, in the order in which they are
/// registered.
pub open spec fn hardware_sources() -> Seq<HardwareInterrupt> {
    seq![
        HardwareInterrupt::Timer,
        HardwareInterrupt::Keyboard,
        HardwareInterrupt::Mouse,
        HardwareInterrupt::Disk,
        HardwareInterrupt::Network,
        HardwareInterrupt::Usb,
        HardwareInterrupt::Other,
    ]
}

/// The handlers to register in the interrupt descriptor table: each source with
/// its vector.
pub fn setup_hardware_interrupts() -> (handlers: Vec<(u8, HardwareInterrupt)>)
    ensures
        handlers@ == hardware_sources().map_values(
            |source: HardwareInterrupt| (vector_of(source), source),
        ),
        handlers@ == seq![
            (32u8, HardwareInterrupt::Timer),
            (33u8, HardwareInterrupt::Keyboard),
            (44u8, HardwareInterrupt::Mouse),
            (46u8, HardwareInterrupt::Disk),
            (43u8, HardwareInterrupt::Network),
            (55u8, HardwareInterrupt::Usb),
            (47u8, HardwareInterrupt::Other),
        ],
{
    let handlers: Vec<(u8, HardwareInterrupt)> = vec![
        (32, HardwareInterrupt::Timer),
        (33, HardwareInterrupt::Keyboard),
        (44, HardwareInterrupt::Mouse),
        (46, HardwareInterrupt::Disk),
        (43, HardwareInterrupt::Network),
        (55, HardwareInterrupt::Usb),
        (47, HardwareInterrupt::Other),
    ];
    assert(handlers@ =~= hardware_sources().map_values(
        |source: HardwareInterrupt| (vector_of(source), source),
    ));
    handlers
}

impl InterruptResponse {
    /// The characters of the line that is printed, if one is.
    pub open spec fn text(self) -> Option<Seq<char>> {
        match self.message {
            Some(message) => Some(message@),
            None => None,
        }
    }
}

fn print_only(line: &str) -> (response: InterruptResponse)
    requires
        is_ascii_chars(line@),
        line@.len() <= LINE_CAPACITY,
    ensures
        response.text() == Some(line@),
        !response.end_of_interrupt,
{
    assert(Seq::<char>::empty() + line@ =~= line@);
    InterruptResponse { message: Some(Line::new().with_text(line)), end_of_interrupt: false }
}

/// Answers the timer: nothing is printed, and the interrupt ends.
pub fn timer_interrupt_handler() -> (response: InterruptResponse)
    ensures
        response.text() is None,
        response.end_of_interrupt,
{
    InterruptResponse { message: None, end_of_interrupt: true }
}

/// Answers the mouse: a line is printed, and the interrupt does not end.
pub fn mouse_interrupt_handler() -> (response: InterruptResponse)
    ensures
        response.text() == Some("[INFO] INT 0x2C: Mouse interrupt\r\n"@),
        !response.end_of_interrupt,
{
    proof {
        reveal_strlit("[INFO] INT 0x2C: Mouse interrupt\r\n");
    }
    print_only("[INFO] INT 0x2C: Mouse interrupt\r\n")
}

/// Answers the disk controller: a line is printed, and the interrupt does not
/// end.
pub fn disk_interrupt_handler() -> (response: InterruptResponse)
    ensures
        response.text() == Some("[INFO] INT 0x2E: Disk controller interrupt\r\n"@),
        !response.end_of_interrupt,
{
    proof {
        reveal_strlit("[INFO] INT 0x2E: Disk controller interrupt\r\n");
    }
    print_only("[INFO] INT 0x2E: Disk controller interrupt\r\n")
}

/// Answers the network card: a line is printed, and the interrupt does not end.
pub fn network_interrupt_handler() -> (response: InterruptResponse)
    ensures
        response.text() == Some("[INFO] INT 0x2B: Network card interrupt\r\n"@),
        !response.end_of_interrupt,
{
    proof {
        reveal_strlit("[INFO] INT 0x2B: Network card interrupt\r\n");
    }
    print_only("[INFO] INT 0x2B: Network card interrupt\r\n")
}

/// Answers the USB controller: a line is printed, and the interrupt does not
/// end.
pub fn usb_interrupt_handler() -> (response: InterruptResponse)
    ensures
        response.text() == Some("[INFO] INT 0x37: USB controller interrupt\r\n"@),
        !response.end_of_interrupt,
{
    proof {
        reveal_strlit("[INFO] INT 0x37: USB controller interrupt\r\n");
    }
    print_only("[INFO] INT 0x37: USB controller interrupt\r\n")
}

/// Answers any other device: a line is printed, and the interrupt does not end.
pub fn other_hardware_interrupt_handler() -> (response: InterruptResponse)
    ensures
        response.text() == Some("[INFO] INT 0x2F: Other hardware device interrupt\r\n"@),
        !response.end_of_interrupt,
{
    proof {
        reveal_strlit("[INFO] INT 0x2F: Other hardware device interrupt\r\n");
    }
    print_only("[INFO] INT 0x2F: Other hardware device interrupt\r\n")
}

/// A byte in hexadecimal, without leading zeros, after `0x`.
pub open spec fn hex_text(byte: u8) -> Seq<char> {
    let digits = "0123456789abcdef"@;
    if byte < 16 {
        "0x"@.push(digits[byte as int])
    } else {
        "0x"@.push(digits[byte as int / 16]).push(digits[byte as int % 16])
    }
}

/// The digit for a number below 16.
fn hex_digit(number: u8) -> (digit: u8)
    requires
        number < 16,
    ensures
        digit < 0x80,
        digit as char == "0123456789abcdef"@[number as int],
{
    proof {
        reveal_strlit("0123456789abcdef");
    }
    if number < 10 {
        0x30 + number
    } else {
        0x61 + (number - 10)
    }
}

fn with_hex(line: Line, byte: u8) -> (longer: Line)
    requires
        line@.len() + 4 <= LINE_CAPACITY,
    ensures
        longer@ == line@ + hex_text(byte),
{
    proof {
        reveal_strlit("0x");
    }
    let mut longer = line.with_text("0x");
    if byte >= 16 {
        longer = longer.with_char(hex_digit(byte / 16));
    }
    longer = longer.with_char(hex_digit(byte % 16));
    assert(longer@ =~= line@ + hex_text(byte));
    longer
}

/// The byte from the keyboard says that a key was pressed: it is not the
/// acknowledgement of a command, and not the break code of a key released.
pub open spec fn is_key_press(scancode: u8) -> bool {
    scancode != KEYBOARD_ACK && scancode < 0x80
}

/// The character can be shown as it is: a visible ASCII character or a space.
pub open spec fn is_printable(ascii: u8) -> bool {
    0x20 <= ascii <= 0x7e
}

/// The line that is printed for a byte from the keyboard, if one is. `ascii` is
/// the ASCII code of the key, where it has one.
pub open spec fn keyboard_text(scancode: u8, ascii: Option<u8>) -> Option<Seq<char>> {
    if scancode == KEYBOARD_ACK {
        Some(
            "[INFO] INT 0x21: Keyboard interrupt, received 0xFA (possible ACK, not a keypress)\r"@,
        )
    } else if is_key_press(scancode) {
        let start = "[INFO] INT 0x21: Keyboard interrupt, scancode: "@ + hex_text(scancode);
        match ascii {
            Some(code) if is_printable(code) => Some(
                start + " | ASCII: '"@ + seq![code as char] + "'\r"@,
            ),
            _ => Some(start + " | ASCII: Unknown\r"@),
        }
    } else {
        None
    }
}

/// Tells whether a byte from the keyboard says that a key was pressed, so that
/// its ASCII code matters.
pub fn reports_key_press(scancode: u8) -> (pressed: bool)
    ensures
        pressed == is_key_press(scancode),
{
    assert((scancode & 0x80 == 0) == (scancode < 0x80)) by (bit_vector);
    scancode != KEYBOARD_ACK && scancode & 0x80 == 0
}

fn acknowledgement_line() -> (line: Line)
    ensures
        line@
            == "[INFO] INT 0x21: Keyboard interrupt, received 0xFA (possible ACK, not a keypress)\r"@,
{
    let text: &str =
        "[INFO] INT 0x21: Keyboard interrupt, received 0xFA (possible ACK, not a keypress)\r";
    proof {
        reveal_strlit(
            "[INFO] INT 0x21: Keyboard interrupt, received 0xFA (possible ACK, not a keypress)\r",
        );
    }
    assert(Seq::<char>::empty() + text@ =~= text@);
    Line::new().with_text(text)
}

fn key_press_line(scancode: u8, ascii: Option<u8>) -> (line: Line)
    requires
        is_key_press(scancode),
    ensures
        Some(line@) == keyboard_text(scancode, ascii),
{
    proof {
        reveal_strlit("[INFO] INT 0x21: Keyboard interrupt, scancode: ");
        reveal_strlit(" | ASCII: '");
        reveal_strlit("'\r");
        reveal_strlit(" | ASCII: Unknown\r");
        reveal_strlit("0x");
    }
    let start = Line::new().with_text("[INFO] INT 0x21: Keyboard interrupt, scancode: ");
    assert(start@ =~= "[INFO] INT 0x21: Keyboard interrupt, scancode: "@);
    let line = with_hex(start, scancode);
    let ghost before = line@;
    match ascii {
        Some(code) if 0x20 <= code && code <= 0x7e => {
            let line = line.with_text(" | ASCII: '").with_char(code).with_text("'\r");
            assert(line@ =~= before + " | ASCII: '"@ + seq![code as char] + "'\r"@);
            line
        },
        _ => line.with_text(" | ASCII: Unknown\r"),
    }
}

/// Answers the keyboard, given the byte that was read from it and the ASCII
/// code of the key, where it has one. The interrupt ends in any case.
pub fn keyboard_interrupt_handler(scancode: u8, ascii: Option<u8>) -> (response: InterruptResponse)
    ensures
        response.text() == keyboard_text(scancode, ascii),
        response.end_of_interrupt,
{
    if scancode == KEYBOARD_ACK {
        let line = acknowledgement_line();
        return InterruptResponse { message: Some(line), end_of_interrupt: true };
    }
    if !reports_key_press(scancode) {
        return InterruptResponse { message: None, end_of_interrupt: true };
    }
    let line = key_press_line(scancode, ascii);
    InterruptResponse { message: Some(line), end_of_interrupt: true }
}

/// The line that is printed for an interrupt, if one is. `scancode` and `ascii`
/// count for the keyboard only.
pub open spec fn answer_text(
    source: HardwareInterrupt,
    scancode: u8,
    ascii: Option<u8>,
) -> Option<Seq<char>> {
    match source {
        HardwareInterrupt::Timer => None,
        HardwareInterrupt::Keyboard => keyboard_text(scancode, ascii),
        HardwareInterrupt::Mouse => Some("[INFO] INT 0x2C: Mouse interrupt\r\n"@),
        HardwareInterrupt::Disk => Some("[INFO] INT 0x2E: Disk controller interrupt\r\n"@),
        HardwareInterrupt::Network => Some("[INFO] INT 0x2B: Network card interrupt\r\n"@),
        HardwareInterrupt::Usb => Some("[INFO] INT 0x37: USB controller interrupt\r\n"@),
        HardwareInterrupt::Other => Some("[INFO] INT 0x2F: Other hardware device interrupt\r\n"@),
    }
}

/// The interrupts that end with their answer.
pub open spec fn ends_with_answer(source: HardwareInterrupt) -> bool {
    source == HardwareInterrupt::Timer || source == HardwareInterrupt::Keyboard
}

/// Answers an interrupt with the handler of its source. For the keyboard,
/// `scancode` is the byte that was read from it and `ascii` the ASCII code of
/// the key, where it has one.
pub fn answer(source: HardwareInterrupt, scancode: u8, ascii: Option<u8>) -> (response:
    InterruptResponse)
    ensures
        response.text() == answer_text(source, scancode, ascii),
        response.end_of_interrupt == ends_with_answer(source),
{
    match source {
        HardwareInterrupt::Timer => timer_interrupt_handler(),
        HardwareInterrupt::Keyboard => keyboard_interrupt_handler(scancode, ascii),
        HardwareInterrupt::Mouse => mouse_interrupt_handler(),
        HardwareInterrupt::Disk => disk_interrupt_handler(),
        HardwareInterrupt::Network => network_interrupt_handler(),
        HardwareInterrupt::Usb => usb_interrupt_handler(),
        HardwareInterrupt::Other => other_hardware_interrupt_handler(),
    }
}

/// How a line names a vector: two capital hexadecimal digits after `0x`.
pub open spec fn vector_text(vector: u8) -> Seq<char> {
    let digits = "0123456789ABCDEF"@;
    "0x"@.push(digits[vector as int / 16]).push(digits[vector as int % 16])
}

/// A line that is printed for an interrupt starts with the vector that its
/// source is registered at.
pub proof fn answer_names_its_vector(source: HardwareInterrupt, scancode: u8, ascii: Option<u8>)
    ensures
        answer_text(source, scancode, ascii) matches Some(line) ==> ("[INFO] INT "@ + vector_text(
            vector_of(source),
        )).is_prefix_of(line),
{
    reveal_strlit("[INFO] INT ");
    reveal_strlit("0x");
    reveal_strlit("0123456789ABCDEF");
    reveal_strlit("[INFO] INT 0x2C: Mouse interrupt\r\n");
    reveal_strlit("[INFO] INT 0x2E: Disk controller interrupt\r\n");
    reveal_strlit("[INFO] INT 0x2B: Network card interrupt\r\n");
    reveal_strlit("[INFO] INT 0x37: USB controller interrupt\r\n");
    reveal_strlit("[INFO] INT 0x2F: Other hardware device interrupt\r\n");
    reveal_strlit("[INFO] INT 0x21: Keyboard interrupt, scancode: ");
    reveal_strlit(
        "[INFO] INT 0x21: Keyboard interrupt, received 0xFA (possible ACK, not a keypress)\r",
    );
    if let Some(line) = answer_text(source, scancode, ascii) {
        let start = "[INFO] INT "@ + vector_text(vector_of(source));
        assert(start.len() == 15);
        assert(start =~= line.take(15));
    }
}

/// No two sources share a vector, and none takes one that is reserved for
/// processor exceptions.
pub proof fn vectors_are_distinct_and_free(a: HardwareInterrupt, b: HardwareInterrupt)
    ensures
        vector_of(a) == vector_of(b) ==> a == b,
        vector_of(a) >= FIRST_HARDWARE_VECTOR,
{
}

/// Every source is registered, and none twice.
pub proof fn every_source_is_registered_once(source: HardwareInterrupt)
    ensures
        hardware_sources().contains(source),
        hardware_sources().no_duplicates(),
{
    let sources = hardware_sources();
    let position: int = match source {
        HardwareInterrupt::Timer => 0,
        HardwareInterrupt::Keyboard => 1,
        HardwareInterrupt::Mouse => 2,
        HardwareInterrupt::Disk => 3,
        HardwareInterrupt::Network => 4,
        HardwareInterrupt::Usb => 5,
        HardwareInterrupt::Other => 6,
    };
    assert(sources[position] == source);
}

/// Releasing a key prints nothing, whatever the key: of the bytes from the
/// keyboard only those for keys pressed and the acknowledgement print a line.
pub proof fn only_presses_and_acknowledgements_print(scancode: u8, ascii: Option<u8>)
    ensures
        keyboard_text(scancode, ascii) is None <==> scancode >= 0x80 && scancode != KEYBOARD_ACK,
{
}

/// A byte in hexadecimal can be read back: after `0x` come digits from 0 to 9 and
/// a to f, whose value is the byte. There is one digit for a byte below 16, and
/// else two.
pub proof fn hexadecimal_can_be_read_back(byte: u8)
    ensures
        ({
            let text = hex_text(byte);
            let value = |digit: char|
                if '0' <= digit <= '9' {
                    digit as int - 48
                } else {
                    digit as int - 87
                };
            &&& text[0] == '0' && text[1] == 'x'
            &&& text.len() == if byte < 16 {
                3int
            } else {
                4int
            }
            &&& forall|i: int|
                2 <= i < text.len() ==> '0' <= #[trigger] text[i] <= '9' || 'a' <= text[i] <= 'f'
            &&& byte == if byte < 16 {
                value(text[2])
            } else {
                16 * value(text[2]) + value(text[3])
            }
        }),
{
    reveal_strlit("0123456789abcdef");
    reveal_strlit("0x");
}

/// A key that is pressed and stands for a visible character or a space is shown
/// with that character, whatever its scancode: every byte below 0x80 is a key
/// pressed, and its line tells the scancode and then the character.
pub proof fn visible_characters_are_shown(scancode: u8, code: u8)
    requires
        scancode < 0x80,
        0x20 <= code <= 0x7e,
    ensures
        keyboard_text(scancode, Some(code)) == Some(
            "[INFO] INT 0x21: Keyboard interrupt, scancode: "@ + hex_text(scancode)
                + " | ASCII: '"@ + seq![code as char] + "'\r"@,
        ),
{
}

/// A key that is pressed and stands for no character, or for one that is neither
/// visible nor a space, is shown as unknown, whatever its scancode.
pub proof fn other_characters_are_unknown(scancode: u8, ascii: Option<u8>)
    requires
        scancode < 0x80,
        ascii matches Some(code) ==> code < 0x20 || code > 0x7e,
    ensures
        keyboard_text(scancode, ascii) == Some(
            "[INFO] INT 0x21: Keyboard interrupt, scancode: "@ + hex_text(scancode)
                + " | ASCII: Unknown\r"@,
        ),
{
}

/// Lines of different keys differ: the scancode and the character can be told
/// from the line.
pub proof fn lines_tell_keys_apart(scancode: u8, code: u8, other_scancode: u8, other_code: u8)
    requires
        scancode < 0x80,
        other_scancode < 0x80,
        0x20 <= code <= 0x7e,
        0x20 <= other_code <= 0x7e,
        keyboard_text(scancode, Some(code)) == keyboard_text(other_scancode, Some(other_code)),
    ensures
        scancode == other_scancode,
        code == other_code,
{
    let prefix = "[INFO] INT 0x21: Keyboard interrupt, scancode: "@;
    let middle = " | ASCII: '"@;
    let end = "'\r"@;
    let hex = hex_text(scancode);
    let other_hex = hex_text(other_scancode);
    let line = prefix + hex + middle + seq![code as char] + end;
    let other = prefix + other_hex + middle + seq![other_code as char] + end;
    visible_characters_are_shown(scancode, code);
    visible_characters_are_shown(other_scancode, other_code);
    hexadecimal_can_be_read_back(scancode);
    hexadecimal_can_be_read_back(other_scancode);
    assert(line == other);
    assert(line.len() == prefix.len() + hex.len() + middle.len() + 1 + end.len());
    assert(other.len() == prefix.len() + other_hex.len() + middle.len() + 1 + end.len());
    assert(hex.len() == other_hex.len());
    let at = prefix.len() as int;
    assert(hex =~= line.subrange(at, at + hex.len()));
    assert(other_hex =~= other.subrange(at, at + hex.len()));
    let place = at + hex.len() + middle.len();
    assert(line[place] == code as char);
    assert(other[place] == other_code as char);
}

/// The acknowledgement of a command has its own line, and it is the only byte
/// from 0x80 on that has one. The highest bit tells a key pressed from a key
/// released.
pub proof fn bytes_from_the_keyboard(scancode: u8, ascii: Option<u8>)
    ensures
        KEYBOARD_ACK == 0xFA,
        keyboard_text(0xFA, ascii) == Some(
            "[INFO] INT 0x21: Keyboard interrupt, received 0xFA (possible ACK, not a keypress)\r"@,
        ),
        scancode >= 0x80 && scancode != 0xFA ==> keyboard_text(scancode, ascii) is None,
        is_key_press(scancode) <==> scancode & 0x80 == 0,
{
    assert((scancode & 0x80 == 0) == (scancode < 0x80)) by (bit_vector);
}

/// The vectors of the sources: the first hardware vector, 32, and the number of
/// the interrupt line. Timer 0, keyboard 1, network 11, mouse 12, disk 14, other
/// devices 15, and USB 23.
pub proof fn vectors_count_from_the_first_hardware_vector()
    ensures
        FIRST_HARDWARE_VECTOR == 32,
        vector_of(HardwareInterrupt::Timer) == 32,
        vector_of(HardwareInterrupt::Keyboard) == 32 + 1,
        vector_of(HardwareInterrupt::Network) == 32 + 11,
        vector_of(HardwareInterrupt::Mouse) == 32 + 12,
        vector_of(HardwareInterrupt::Disk) == 32 + 14,
        vector_of(HardwareInterrupt::Other) == 32 + 15,
        vector_of(HardwareInterrupt::Usb) == 32 + 23,
{
}

/// What is printed for each source, and which interrupts end with their answer:
/// those of the timer and of the keyboard. Only the keyboard's line depends on
/// the byte that was read.
pub proof fn sources_print_their_lines(scancode: u8, ascii: Option<u8>)
    ensures
        answer_text(HardwareInterrupt::Timer, scancode, ascii) is None,
        answer_text(HardwareInterrupt::Keyboard, scancode, ascii) == keyboard_text(scancode, ascii),
        answer_text(HardwareInterrupt::Mouse, scancode, ascii) == Some(
            "[INFO] INT 0x2C: Mouse interrupt\r\n"@,
        ),
        answer_text(HardwareInterrupt::Disk, scancode, ascii) == Some(
            "[INFO] INT 0x2E: Disk controller interrupt\r\n"@,
        ),
        answer_text(HardwareInterrupt::Network, scancode, ascii) == Some(
            "[INFO] INT 0x2B: Network card interrupt\r\n"@,
        ),
        answer_text(HardwareInterrupt::Usb, scancode, ascii) == Some(
            "[INFO] INT 0x37: USB controller interrupt\r\n"@,
        ),
        answer_text(HardwareInterrupt::Other, scancode, ascii) == Some(
            "[INFO] INT 0x2F: Other hardware device interrupt\r\n"@,
        ),
        ends_with_answer(HardwareInterrupt::Timer),
        ends_with_answer(HardwareInterrupt::Keyboard),
        !ends_with_answer(HardwareInterrupt::Mouse),
        !ends_with_answer(HardwareInterrupt::Disk),
        !ends_with_answer(HardwareInterrupt::Network),
        !ends_with_answer(HardwareInterrupt::Usb),
        !ends_with_answer(HardwareInterrupt::Other),
{
}

/// What a response prints is its message, character by character, and nothing
/// where there is none.
pub proof fn response_prints_its_message(response: InterruptResponse)
    ensures
        response.message is None <==> response.text() is None,
        response.message matches Some(line) ==> response.text() == Some(line@),
{
}

} // verus!
