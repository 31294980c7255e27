//! The decoded operator stream the engine consumes.
//!
//! The container-decoding layer hands the engine one `Operation` per page
//! drawing instruction: the operator's name as raw bytes and its operands
//! as plain values. Numbers arrive in thousandths of a page unit.

use vstd::prelude::*;

verus! {

/// One operand of a drawing operator.
#[derive(Debug, Clone, PartialEq, Eq)]
pub enum Operand {
    /// A number, in thousandths of a unit.
    Num(i64),
    /// A string written as literal bytes.
    Str(Vec<u8>),
    /// A string written hexadecimally.
    HexStr(Vec<u8>),
    /// A resource name.
    Name(Vec<u8>),
    /// The adjustment array of a show-text operator.
    Array(Vec<TjItem>),
    /// Any operand shape the engine has no use for.
    Other,
}

/// One element of a show-text adjustment array.
#[derive(Debug, Clone, PartialEq, Eq)]
pub enum TjItem {
    /// A kerning adjustment, in thousandths of a text-space unit.
    Num(i64),
    /// A string written as literal bytes.
    Str(Vec<u8>),
    /// A string written hexadecimally.
    HexStr(Vec<u8>),
    /// Any element shape the engine has no use for.
    Other,
}

/// One drawing instruction: an operator name and its operands.
#[derive(Debug, Clone, PartialEq, Eq)]
pub struct Operation {
    pub name: Vec<u8>,
    pub operands: Vec<Operand>,
}

impl Operation {
    /// Builds an operation from a name and its operands.
    pub fn new(name: Vec<u8>, operands: Vec<Operand>) -> (r: Operation)
        ensures
            r.name == name,
            r.operands == operands,
    {
        Operation { name, operands }
    }
}

/// The operator classes the engine reacts to.
#[derive(Debug, Clone, Copy, PartialEq, Eq, Structural)]
pub enum OpKind {
    /// `Tf`: select a font and a font size.
    SetFont,
    /// `Tc`: set the character spacing.
    SetCharSpace,
    /// `Tw`: set the word spacing.
    SetWordSpace,
    /// `T*`: move to the next line.
    NextLine,
    /// `Td` or `TD`: move the text position.
    MoveText,
    /// `Tm` or `Tlm`: set the text or line matrix.
    SetMatrix,
    /// `Tj` or `TJ`: show text, with or without adjustments.
    ShowText,
    /// `Tfs`: the font-size operator, which the engine does not support.
    SetFontSize,
    /// `re`: define the current rectangle.
    DefineRect,
    /// `f` or `F`: fill the current path.
    FillPath,
    /// Every other operator, which the engine ignores.
    Other,
}

/// The operator class named by a raw operator name.
pub open spec fn spec_classify(name: Seq<u8>) -> OpKind {
    if name.len() == 1 {
        if name[0] == 102 || name[0] == 70 {
            OpKind::FillPath
        } else {
            OpKind::Other
        }
    } else if name.len() == 2 {
        if name[0] == 84 {
            if name[1] == 102 {
                OpKind::SetFont
            } else if name[1] == 99 {
                OpKind::SetCharSpace
            } else if name[1] == 119 {
                OpKind::SetWordSpace
            } else if name[1] == 42 {
                OpKind::NextLine
            } else if name[1] == 100 || name[1] == 68 {
                OpKind::MoveText
            } else if name[1] == 109 {
                OpKind::SetMatrix
            } else if name[1] == 106 || name[1] == 74 {
                OpKind::ShowText
            } else {
                OpKind::Other
            }
        } else if name[0] == 114 && name[1] == 101 {
            OpKind::DefineRect
        } else {
            OpKind::Other
        }
    } else if name.len() == 3 {
        if name[0] == 84 && name[1] == 108 && name[2] == 109 {
            OpKind::SetMatrix
        } else if name[0] == 84 && name[1] == 102 && name[2] == 115 {
            OpKind::SetFontSize
        } else {
            OpKind::Other
        }
    } else {
        OpKind::Other
    }
}

/// Classifies a raw operator name.
pub fn classify(name: &Vec<u8>) -> (r: OpKind)
    ensures
        r == spec_classify(name@),
{
    let n = name.len();
    if n == 1 {
        let a = name[0];
        if a == 102 || a == 70 {
            OpKind::FillPath
        } else {
            OpKind::Other
        }
    } else if n == 2 {
        let a = name[0];
        let b = name[1];
        if a == 84 {
            if b == 102 {
                OpKind::SetFont
            } else if b == 99 {
                OpKind::SetCharSpace
            } else if b == 119 {
                OpKind::SetWordSpace
            } else if b == 42 {
                OpKind::NextLine
            } else if b == 100 || b == 68 {
                OpKind::MoveText
            } else if b == 109 {
                OpKind::SetMatrix
            } else if b == 106 || b == 74 {
                OpKind::ShowText
            } else {
                OpKind::Other
            }
        } else if a == 114 && b == 101 {
            OpKind::DefineRect
        } else {
            OpKind::Other
        }
    } else if n == 3 {
        let a = name[0];
        let b = name[1];
        let c = name[2];
        if a == 84 && b == 108 && c == 109 {
            OpKind::SetMatrix
        } else if a == 84 && b == 102 && c == 115 {
            OpKind::SetFontSize
        } else {
            OpKind::Other
        }
    } else {
        OpKind::Other
    }
}

} // verus!
