use vstd::prelude::*;

verus! {

/// The reserved words of VHDL.
#[derive(Debug, Clone, Copy, PartialEq, Eq, Hash, Structural)]
pub enum Keyword {
    Abs,
    Access,
    After,
    Alias,
    All,
    And,
    Architecture,
    Array,
    Assert,
    Assume,
    AssumeGuarantee,
    Attribute,
    Begin,
    Block,
    Body,
    Buffer,
    Bus,
    Case,
    Component,
    Configuration,
    Constant,
    Context,
    Cover,
    Default,
    Disconnect,
    Downto,
    Else,
    Elsif,
    End,
    Entity,
    Exit,
    Fairness,
    File,
    For,
    Force,
    Function,
    Generate,
    Generic,
    Group,
    Guarded,
    If,
    Impure,
    In,
    Inertial,
    Inout,
    Is,
    Label,
    Library,
    Linkage,
    Literal,
    Loop,
    MapKw,
    Mod,
    Nand,
    New,
    Next,
    Nor,
    Not,
    Null,
    Of,
    On,
    Open,
    Or,
    Others,
    Out,
    Package,
    Parameter,
    Port,
    Postponed,
    Procedure,
    Process,
    Property,
    Protected,
    Pure,
    Range,
    Record,
    Register,
    Reject,
    Release,
    Rem,
    Report,
    Restrict,
    RestrictGuarantee,
    Return,
    Rol,
    Ror,
    Select,
    Sequence,
    Severity,
    Signal,
    Shared,
    Sla,
    Sll,
    Sra,
    Srl,
    Strong,
    Subtype,
    Then,
    To,
    Transport,
    Type,
    Unaffected,
    Units,
    Until,
    Use,
    Variable,
    Vmode,
    Vprop,
    Vunit,
    Wait,
    When,
    While,
    With,
    Xnor,
    Xor,
}

impl Keyword {
    /// The lower-case spelling of the reserved word.
    pub open spec fn text(self) -> Seq<char> {
        match self {
            Keyword::Abs => "abs"@,
            Keyword::Access => "access"@,
            Keyword::After => "after"@,
            Keyword::Alias => "alias"@,
            Keyword::All => "all"@,
            Keyword::And => "and"@,
            Keyword::Architecture => "architecture"@,
            Keyword::Array => "array"@,
            Keyword::Assert => "assert"@,
            Keyword::Assume => "assume"@,
            Keyword::AssumeGuarantee => "assume_guarantee"@,
            Keyword::Attribute => "attribute"@,
            Keyword::Begin => "begin"@,
            Keyword::Block => "block"@,
            Keyword::Body => "body"@,
            Keyword::Buffer => "buffer"@,
            Keyword::Bus => "bus"@,
            Keyword::Case => "case"@,
            Keyword::Component => "component"@,
            Keyword::Configuration => "configuration"@,
            Keyword::Constant => "constant"@,
            Keyword::Context => "context"@,
            Keyword::Cover => "cover"@,
            Keyword::Default => "default"@,
            Keyword::Disconnect => "disconnect"@,
            Keyword::Downto => "downto"@,
            Keyword::Else => "else"@,
            Keyword::Elsif => "elsif"@,
            Keyword::End => "end"@,
            Keyword::Entity => "entity"@,
            Keyword::Exit => "exit"@,
            Keyword::Fairness => "fairness"@,
            Keyword::File => "file"@,
            Keyword::For => "for"@,
            Keyword::Force => "force"@,
            Keyword::Function => "function"@,
            Keyword::Generate => "generate"@,
            Keyword::Generic => "generic"@,
            Keyword::Group => "group"@,
            Keyword::Guarded => "guarded"@,
            Keyword::If => "if"@,
            Keyword::Impure => "impure"@,
            Keyword::In => "in"@,
            Keyword::Inertial => "inertial"@,
            Keyword::Inout => "inout"@,
            Keyword::Is => "is"@,
            Keyword::Label => "label"@,
            Keyword::Library => "library"@,
            Keyword::Linkage => "linkage"@,
            Keyword::Literal => "literal"@,
            Keyword::Loop => "loop"@,
            Keyword::MapKw => "map"@,
            Keyword::Mod => "mod"@,
            Keyword::Nand => "nand"@,
            Keyword::New => "new"@,
            Keyword::Next => "next"@,
            Keyword::Nor => "nor"@,
            Keyword::Not => "not"@,
            Keyword::Null => "null"@,
            Keyword::Of => "of"@,
            Keyword::On => "on"@,
            Keyword::Open => "open"@,
            Keyword::Or => "or"@,
            Keyword::Others => "others"@,
            Keyword::Out => "out"@,
            Keyword::Package => "package"@,
            Keyword::Parameter => "parameter"@,
            Keyword::Port => "port"@,
            Keyword::Postponed => "postponed"@,
            Keyword::Procedure => "procedure"@,
            Keyword::Process => "process"@,
            Keyword::Property => "property"@,
            Keyword::Protected => "protected"@,
            Keyword::Pure => "pure"@,
            Keyword::Range => "range"@,
            Keyword::Record => "record"@,
            Keyword::Register => "register"@,
            Keyword::Reject => "reject"@,
            Keyword::Release => "release"@,
            Keyword::Rem => "rem"@,
            Keyword::Report => "report"@,
            Keyword::Restrict => "restrict"@,
            Keyword::RestrictGuarantee => "restrict_guarantee"@,
            Keyword::Return => "return"@,
            Keyword::Rol => "rol"@,
            Keyword::Ror => "ror"@,
            Keyword::Select => "select"@,
            Keyword::Sequence => "sequence"@,
            Keyword::Severity => "severity"@,
            Keyword::Signal => "signal"@,
            Keyword::Shared => "shared"@,
            Keyword::Sla => "sla"@,
            Keyword::Sll => "sll"@,
            Keyword::Sra => "sra"@,
            Keyword::Srl => "srl"@,
            Keyword::Strong => "strong"@,
            Keyword::Subtype => "subtype"@,
            Keyword::Then => "then"@,
            Keyword::To => "to"@,
            Keyword::Transport => "transport"@,
            Keyword::Type => "type"@,
            Keyword::Unaffected => "unaffected"@,
            Keyword::Units => "units"@,
            Keyword::Until => "until"@,
            Keyword::Use => "use"@,
            Keyword::Variable => "variable"@,
            Keyword::Vmode => "vmode"@,
            Keyword::Vprop => "vprop"@,
            Keyword::Vunit => "vunit"@,
            Keyword::Wait => "wait"@,
            Keyword::When => "when"@,
            Keyword::While => "while"@,
            Keyword::With => "with"@,
            Keyword::Xnor => "xnor"@,
            Keyword::Xor => "xor"@,
        }
    }

    /// The lower-case spelling of the reserved word.
    pub fn as_str(&self) -> (s: &'static str)
        ensures
            s@ == self.text(),
    {
        match self {
            Keyword::Abs => "abs",
            Keyword::Access => "access",
            Keyword::After => "after",
            Keyword::Alias => "alias",
            Keyword::All => "all",
            Keyword::And => "and",
            Keyword::Architecture => "architecture",
            Keyword::Array => "array",
            Keyword::Assert => "assert",
            Keyword::Assume => "assume",
            Keyword::AssumeGuarantee => "assume_guarantee",
            Keyword::Attribute => "attribute",
            Keyword::Begin => "begin",
            Keyword::Block => "block",
            Keyword::Body => "body",
            Keyword::Buffer => "buffer",
            Keyword::Bus => "bus",
            Keyword::Case => "case",
            Keyword::Component => "component",
            Keyword::Configuration => "configuration",
            Keyword::Constant => "constant",
            Keyword::Context => "context",
            Keyword::Cover => "cover",
            Keyword::Default => "default",
            Keyword::Disconnect => "disconnect",
            Keyword::Downto => "downto",
            Keyword::Else => "else",
            Keyword::Elsif => "elsif",
            Keyword::End => "end",
            Keyword::Entity => "entity",
            Keyword::Exit => "exit",
            Keyword::Fairness => "fairness",
            Keyword::File => "file",
            Keyword::For => "for",
            Keyword::Force => "force",
            Keyword::Function => "function",
            Keyword::Generate => "generate",
            Keyword::Generic => "generic",
            Keyword::Group => "group",
            Keyword::Guarded => "guarded",
            Keyword::If => "if",
            Keyword::Impure => "impure",
            Keyword::In => "in",
            Keyword::Inertial => "inertial",
            Keyword::Inout => "inout",
            Keyword::Is => "is",
            Keyword::Label => "label",
            Keyword::Library => "library",
            Keyword::Linkage => "linkage",
            Keyword::Literal => "literal",
            Keyword::Loop => "loop",
            Keyword::MapKw => "map",
            Keyword::Mod => "mod",
            Keyword::Nand => "nand",
            Keyword::New => "new",
            Keyword::Next => "next",
            Keyword::Nor => "nor",
            Keyword::Not => "not",
            Keyword::Null => "null",
            Keyword::Of => "of",
            Keyword::On => "on",
            Keyword::Open => "open",
            Keyword::Or => "or",
            Keyword::Others => "others",
            Keyword::Out => "out",
            Keyword::Package => "package",
            Keyword::Parameter => "parameter",
            Keyword::Port => "port",
            Keyword::Postponed => "postponed",
            Keyword::Procedure => "procedure",
            Keyword::Process => "process",
            Keyword::Property => "property",
            Keyword::Protected => "protected",
            Keyword::Pure => "pure",
            Keyword::Range => "range",
            Keyword::Record => "record",
            Keyword::Register => "register",
            Keyword::Reject => "reject",
            Keyword::Release => "release",
            Keyword::Rem => "rem",
            Keyword::Report => "report",
            Keyword::Restrict => "restrict",
            Keyword::RestrictGuarantee => "restrict_guarantee",
            Keyword::Return => "return",
            Keyword::Rol => "rol",
            Keyword::Ror => "ror",
            Keyword::Select => "select",
            Keyword::Sequence => "sequence",
            Keyword::Severity => "severity",
            Keyword::Signal => "signal",
            Keyword::Shared => "shared",
            Keyword::Sla => "sla",
            Keyword::Sll => "sll",
            Keyword::Sra => "sra",
            Keyword::Srl => "srl",
            Keyword::Strong => "strong",
            Keyword::Subtype => "subtype",
            Keyword::Then => "then",
            Keyword::To => "to",
            Keyword::Transport => "transport",
            Keyword::Type => "type",
            Keyword::Unaffected => "unaffected",
            Keyword::Units => "units",
            Keyword::Until => "until",
            Keyword::Use => "use",
            Keyword::Variable => "variable",
            Keyword::Vmode => "vmode",
            Keyword::Vprop => "vprop",
            Keyword::Vunit => "vunit",
            Keyword::Wait => "wait",
            Keyword::When => "when",
            Keyword::While => "while",
            Keyword::With => "with",
            Keyword::Xnor => "xnor",
            Keyword::Xor => "xor",
        }
    }

    /// Every reserved word, in alphabetical order.
    pub fn all() -> (v: Vec<Keyword>)
        ensures
            forall|k: Keyword| #[trigger] v@.contains(k),
    {
        let v = vec![
            Keyword::Abs,
            Keyword::Access,
            Keyword::After,
            Keyword::Alias,
            Keyword::All,
            Keyword::And,
            Keyword::Architecture,
            Keyword::Array,
            Keyword::Assert,
            Keyword::Assume,
            Keyword::AssumeGuarantee,
            Keyword::Attribute,
            Keyword::Begin,
            Keyword::Block,
            Keyword::Body,
            Keyword::Buffer,
            Keyword::Bus,
            Keyword::Case,
            Keyword::Component,
            Keyword::Configuration,
            Keyword::Constant,
            Keyword::Context,
            Keyword::Cover,
            Keyword::Default,
            Keyword::Disconnect,
            Keyword::Downto,
            Keyword::Else,
            Keyword::Elsif,
            Keyword::End,
            Keyword::Entity,
            Keyword::Exit,
            Keyword::Fairness,
            Keyword::File,
            Keyword::For,
            Keyword::Force,
            Keyword::Function,
            Keyword::Generate,
            Keyword::Generic,
            Keyword::Group,
            Keyword::Guarded,
            Keyword::If,
            Keyword::Impure,
            Keyword::In,
            Keyword::Inertial,
            Keyword::Inout,
            Keyword::Is,
            Keyword::Label,
            Keyword::Library,
            Keyword::Linkage,
            Keyword::Literal,
            Keyword::Loop,
            Keyword::MapKw,
            Keyword::Mod,
            Keyword::Nand,
            Keyword::New,
            Keyword::Next,
            Keyword::Nor,
            Keyword::Not,
            Keyword::Null,
            Keyword::Of,
            Keyword::On,
            Keyword::Open,
            Keyword::Or,
            Keyword::Others,
            Keyword::Out,
            Keyword::Package,
            Keyword::Parameter,
            Keyword::Port,
            Keyword::Postponed,
            Keyword::Procedure,
            Keyword::Process,
            Keyword::Property,
            Keyword::Protected,
            Keyword::Pure,
            Keyword::Range,
            Keyword::Record,
            Keyword::Register,
            Keyword::Reject,
            Keyword::Release,
            Keyword::Rem,
            Keyword::Report,
            Keyword::Restrict,
            Keyword::RestrictGuarantee,
            Keyword::Return,
            Keyword::Rol,
            Keyword::Ror,
            Keyword::Select,
            Keyword::Sequence,
            Keyword::Severity,
            Keyword::Signal,
            Keyword::Shared,
            Keyword::Sla,
            Keyword::Sll,
            Keyword::Sra,
            Keyword::Srl,
            Keyword::Strong,
            Keyword::Subtype,
            Keyword::Then,
            Keyword::To,
            Keyword::Transport,
            Keyword::Type,
            Keyword::Unaffected,
            Keyword::Units,
            Keyword::Until,
            Keyword::Use,
            Keyword::Variable,
            Keyword::Vmode,
            Keyword::Vprop,
            Keyword::Vunit,
            Keyword::Wait,
            Keyword::When,
            Keyword::While,
            Keyword::With,
            Keyword::Xnor,
            Keyword::Xor,
        ];
        proof {
            assert forall|k: Keyword| #[trigger] v@.contains(k) by {
                match k {
                    Keyword::Abs => { assert(v@[0] == k); }
                    Keyword::Access => { assert(v@[1] == k); }
                    Keyword::After => { assert(v@[2] == k); }
                    Keyword::Alias => { assert(v@[3] == k); }
                    Keyword::All => { assert(v@[4] == k); }
                    Keyword::And => { assert(v@[5] == k); }
                    Keyword::Architecture => { assert(v@[6] == k); }
                    Keyword::Array => { assert(v@[7] == k); }
                    Keyword::Assert => { assert(v@[8] == k); }
                    Keyword::Assume => { assert(v@[9] == k); }
                    Keyword::AssumeGuarantee => { assert(v@[10] == k); }
                    Keyword::Attribute => { assert(v@[11] == k); }
                    Keyword::Begin => { assert(v@[12] == k); }
                    Keyword::Block => { assert(v@[13] == k); }
                    Keyword::Body => { assert(v@[14] == k); }
                    Keyword::Buffer => { assert(v@[15] == k); }
                    Keyword::Bus => { assert(v@[16] == k); }
                    Keyword::Case => { assert(v@[17] == k); }
                    Keyword::Component => { assert(v@[18] == k); }
                    Keyword::Configuration => { assert(v@[19] == k); }
                    Keyword::Constant => { assert(v@[20] == k); }
                    Keyword::Context => { assert(v@[21] == k); }
                    Keyword::Cover => { assert(v@[22] == k); }
                    Keyword::Default => { assert(v@[23] == k); }
                    Keyword::Disconnect => { assert(v@[24] == k); }
                    Keyword::Downto => { assert(v@[25] == k); }
                    Keyword::Else => { assert(v@[26] == k); }
                    Keyword::Elsif => { assert(v@[27] == k); }
                    Keyword::End => { assert(v@[28] == k); }
                    Keyword::Entity => { assert(v@[29] == k); }
                    Keyword::Exit => { assert(v@[30] == k); }
                    Keyword::Fairness => { assert(v@[31] == k); }
                    Keyword::File => { assert(v@[32] == k); }
                    Keyword::For => { assert(v@[33] == k); }
                    Keyword::Force => { assert(v@[34] == k); }
                    Keyword::Function => { assert(v@[35] == k); }
                    Keyword::Generate => { assert(v@[36] == k); }
                    Keyword::Generic => { assert(v@[37] == k); }
                    Keyword::Group => { assert(v@[38] == k); }
                    Keyword::Guarded => { assert(v@[39] == k); }
                    Keyword::If => { assert(v@[40] == k); }
                    Keyword::Impure => { assert(v@[41] == k); }
                    Keyword::In => { assert(v@[42] == k); }
                    Keyword::Inertial => { assert(v@[43] == k); }
                    Keyword::Inout => { assert(v@[44] == k); }
                    Keyword::Is => { assert(v@[45] == k); }
                    Keyword::Label => { assert(v@[46] == k); }
                    Keyword::Library => { assert(v@[47] == k); }
                    Keyword::Linkage => { assert(v@[48] == k); }
                    Keyword::Literal => { assert(v@[49] == k); }
                    Keyword::Loop => { assert(v@[50] == k); }
                    Keyword::MapKw => { assert(v@[51] == k); }
                    Keyword::Mod => { assert(v@[52] == k); }
                    Keyword::Nand => { assert(v@[53] == k); }
                    Keyword::New => { assert(v@[54] == k); }
                    Keyword::Next => { assert(v@[55] == k); }
                    Keyword::Nor => { assert(v@[56] == k); }
                    Keyword::Not => { assert(v@[57] == k); }
                    Keyword::Null => { assert(v@[58] == k); }
                    Keyword::Of => { assert(v@[59] == k); }
                    Keyword::On => { assert(v@[60] == k); }
                    Keyword::Open => { assert(v@[61] == k); }
                    Keyword::Or => { assert(v@[62] == k); }
                    Keyword::Others => { assert(v@[63] == k); }
                    Keyword::Out => { assert(v@[64] == k); }
                    Keyword::Package => { assert(v@[65] == k); }
                    Keyword::Parameter => { assert(v@[66] == k); }
                    Keyword::Port => { assert(v@[67] == k); }
                    Keyword::Postponed => { assert(v@[68] == k); }
                    Keyword::Procedure => { assert(v@[69] == k); }
                    Keyword::Process => { assert(v@[70] == k); }
                    Keyword::Property => { assert(v@[71] == k); }
                    Keyword::Protected => { assert(v@[72] == k); }
                    Keyword::Pure => { assert(v@[73] == k); }
                    Keyword::Range => { assert(v@[74] == k); }
                    Keyword::Record => { assert(v@[75] == k); }
                    Keyword::Register => { assert(v@[76] == k); }
                    Keyword::Reject => { assert(v@[77] == k); }
                    Keyword::Release => { assert(v@[78] == k); }
                    Keyword::Rem => { assert(v@[79] == k); }
                    Keyword::Report => { assert(v@[80] == k); }
                    Keyword::Restrict => { assert(v@[81] == k); }
                    Keyword::RestrictGuarantee => { assert(v@[82] == k); }
                    Keyword::Return => { assert(v@[83] == k); }
                    Keyword::Rol => { assert(v@[84] == k); }
                    Keyword::Ror => { assert(v@[85] == k); }
                    Keyword::Select => { assert(v@[86] == k); }
                    Keyword::Sequence => { assert(v@[87] == k); }
                    Keyword::Severity => { assert(v@[88] == k); }
                    Keyword::Signal => { assert(v@[89] == k); }
                    Keyword::Shared => { assert(v@[90] == k); }
                    Keyword::Sla => { assert(v@[91] == k); }
                    Keyword::Sll => { assert(v@[92] == k); }
                    Keyword::Sra => { assert(v@[93] == k); }
                    Keyword::Srl => { assert(v@[94] == k); }
                    Keyword::Strong => { assert(v@[95] == k); }
                    Keyword::Subtype => { assert(v@[96] == k); }
                    Keyword::Then => { assert(v@[97] == k); }
                    Keyword::To => { assert(v@[98] == k); }
                    Keyword::Transport => { assert(v@[99] == k); }
                    Keyword::Type => { assert(v@[100] == k); }
                    Keyword::Unaffected => { assert(v@[101] == k); }
                    Keyword::Units => { assert(v@[102] == k); }
                    Keyword::Until => { assert(v@[103] == k); }
                    Keyword::Use => { assert(v@[104] == k); }
                    Keyword::Variable => { assert(v@[105] == k); }
                    Keyword::Vmode => { assert(v@[106] == k); }
                    Keyword::Vprop => { assert(v@[107] == k); }
                    Keyword::Vunit => { assert(v@[108] == k); }
                    Keyword::Wait => { assert(v@[109] == k); }
                    Keyword::When => { assert(v@[110] == k); }
                    Keyword::While => { assert(v@[111] == k); }
                    Keyword::With => { assert(v@[112] == k); }
                    Keyword::Xnor => { assert(v@[113] == k); }
                    Keyword::Xor => { assert(v@[114] == k); }
                }
            }
        }
        v
    }
}

} // verus!
