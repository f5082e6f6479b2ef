//! Decoding of one raw terminal read into a semantic input event. This is
//! the only place that interprets raw terminal bytes; the byte patterns are
//! the ANSI arrow-key escape sequences plus the control bytes the menus use.

use vstd::prelude::*;

verus! {

/// The mathematical value of an [`InputEvent`].
#[verifier::ext_equal]
pub ghost enum InputEventModel {
    Up,
    Down,
    Right,
    Left,
    Enter,
    Exit,
    Back,
    Char(char),
    Unknown { input: Seq<u8> },
}

/// One semantic input event, decoded from a raw read.
#[derive(Debug)]
pub enum InputEvent {
    Up,
    Down,
    Right,
    Left,
    Enter,
    Exit,
    Back,
    Char(char),
    Unknown { input: Vec<u8> },
}

impl View for InputEvent {
    type V = InputEventModel;

    open spec fn view(&self) -> InputEventModel {
        match self {
            InputEvent::Up => InputEventModel::Up,
            InputEvent::Down => InputEventModel::Down,
            InputEvent::Right => InputEventModel::Right,
            InputEvent::Left => InputEventModel::Left,
            InputEvent::Enter => InputEventModel::Enter,
            InputEvent::Exit => InputEventModel::Exit,
            InputEvent::Back => InputEventModel::Back,
            InputEvent::Char(c) => InputEventModel::Char(*c),
            InputEvent::Unknown { input } => InputEventModel::Unknown { input: input@ },
        }
    }
}

/// The fixed decode table: `0x03` exit, `0x0D` enter, `ESC [ A..D` the four
/// arrows, `0x7F` back, any single printable ASCII byte itself, anything
/// else unknown with the raw bytes kept.
pub open spec fn spec_decode_input(input: Seq<u8>) -> InputEventModel {
    if input == seq![3u8] {
        InputEventModel::Exit
    } else if input == seq![13u8] {
        InputEventModel::Enter
    } else if input == seq![27u8, 91u8, 65u8] {
        InputEventModel::Up
    } else if input == seq![27u8, 91u8, 66u8] {
        InputEventModel::Down
    } else if input == seq![27u8, 91u8, 67u8] {
        InputEventModel::Right
    } else if input == seq![27u8, 91u8, 68u8] {
        InputEventModel::Left
    } else if input == seq![127u8] {
        InputEventModel::Back
    } else if input.len() == 1 && 32 <= input[0] <= 126 {
        InputEventModel::Char(input[0] as char)
    } else {
        InputEventModel::Unknown { input }
    }
}

/// Decodes the bytes of one terminal read into an input event, exactly as
/// [`spec_decode_input`] lays the table out.
pub fn read_input(input: &[u8]) -> (r: InputEvent)
    ensures
        r@ == spec_decode_input(input@),
{
    if input.len() == 1 {
        let b = input[0];
        proof {
            assert(input@ =~= seq![b]);
            if b != 3 {
                assert(input@ != seq![3u8]);
            }
            if b != 13 {
                assert(input@ != seq![13u8]);
            }
            if b != 127 {
                assert(input@ != seq![127u8]);
            }
            assert(input@.len() != 3);
        }
        if b == 3 {
            InputEvent::Exit
        } else if b == 13 {
            InputEvent::Enter
        } else if b == 127 {
            InputEvent::Back
        } else if 32 <= b && b <= 126 {
            InputEvent::Char(b as char)
        } else {
            InputEvent::Unknown { input: vstd::slice::slice_to_vec(input) }
        }
    } else if input.len() == 3 && input[0] == 27 && input[1] == 91 {
        let b = input[2];
        proof {
            assert(input@ =~= seq![27u8, 91u8, b]);
            assert(input@.len() != 1);
            if b != 65 {
                assert(input@ != seq![27u8, 91u8, 65u8]);
            }
            if b != 66 {
                assert(input@ != seq![27u8, 91u8, 66u8]);
            }
            if b != 67 {
                assert(input@ != seq![27u8, 91u8, 67u8]);
            }
            if b != 68 {
                assert(input@ != seq![27u8, 91u8, 68u8]);
            }
        }
        if b == 65 {
            InputEvent::Up
        } else if b == 66 {
            InputEvent::Down
        } else if b == 67 {
            InputEvent::Right
        } else if b == 68 {
            InputEvent::Left
        } else {
            InputEvent::Unknown { input: vstd::slice::slice_to_vec(input) }
        }
    } else {
        proof {
            if input@.len() == 3 {
                assert(input@ != seq![27u8, 91u8, 65u8]);
                assert(input@ != seq![27u8, 91u8, 66u8]);
                assert(input@ != seq![27u8, 91u8, 67u8]);
                assert(input@ != seq![27u8, 91u8, 68u8]);
            }
        }
        InputEvent::Unknown { input: vstd::slice::slice_to_vec(input) }
    }
}

} // verus!
