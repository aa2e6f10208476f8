//! The assembler: turns line-oriented source text into a resolved
//! [`Program`].
//!
//! Each line holds at most one label declaration and one instruction,
//! with `#` starting a comment. Label names are resolved to dense
//! [`LabelId`]s in first-seen order, whether the name is first seen as a
//! declaration or as a jump target, so forward references get the same
//! identifier a later declaration reuses. After all lines are scanned, a
//! validation pass reports every jump whose label was never declared.
//! Parsing collects all errors rather than stopping at the first.
//!
//! Every function is specified against a spec-level parser over
//! `Seq<char>`; [`spec_parse`] is the meaning of the whole text.

use vstd::prelude::*;
use crate::errors::InvalidArgument;
use crate::errors::ParseError;
use crate::errors::ParseErrorKind;
use crate::errors::ParseErrorKindView;
use crate::errors::ParseErrorView;
use crate::program::CodeAddress;
use crate::program::LabelId;
use crate::program::Program;
use crate::program::ProgramView;
use crate::stmt::Op;
use crate::stmt::RegisterValue;
use crate::stmt::Stmt;
use crate::stmt::Value;
use crate::text::before_comment;
use crate::text::chars_of;
use crate::text::comment_cut;
use crate::text::is_label_char;
use crate::text::is_label_start;
use crate::text::char_is_label_char;
use crate::text::char_is_label_start;
use crate::text::char_upper;
use crate::text::parse_usize;
use crate::text::parse_usize_span;
use crate::text::span_texts;
use crate::text::split_lines;
use crate::text::split_ws;
use crate::text::line_spans;
use crate::text::tokenize;
use crate::text::upper;

verus! {

/// The uppercase form of a word: every ASCII letter raised to upper
/// case, other characters unchanged.
pub open spec fn upper_seq(s: Seq<char>) -> Seq<char> {
    Seq::new(s.len(), |i: int| upper(s[i]))
}

/// Whether `s` names the keyword `kw` up to ASCII case.
pub open spec fn is_keyword(s: Seq<char>, kw: Seq<char>) -> bool {
    upper_seq(s) == kw
}

/// Whether `s` is a valid label name: nonempty, opening with an ASCII
/// letter or underscore, and made of ASCII letters, digits and
/// underscores throughout.
pub open spec fn spec_is_valid_label(s: Seq<char>) -> bool {
    &&& s.len() > 0
    &&& is_label_start(s[0])
    &&& forall|i: int| 0 <= i < s.len() ==> is_label_char(#[trigger] s[i])
}

/// Whether the word `s` equals the keyword `kw` up to ASCII case.
/// `kw` is expected in upper case.
pub fn str_is_keyword(s: &str, kw: &str) -> (r: bool)
    ensures
        r == is_keyword(s@, kw@),
{
    let n = s.unicode_len();
    if n != kw.unicode_len() {
        assert(upper_seq(s@).len() != kw@.len());
        return false;
    }
    let mut i: usize = 0;
    while i < n
        invariant
            n == s@.len() == kw@.len(),
            i <= n,
            forall|j: int| 0 <= j < i ==> upper_seq(s@)[j] == kw@[j],
        decreases n - i,
    {
        if char_upper(s.get_char(i)) != kw.get_char(i) {
            assert(upper_seq(s@)[i as int] != kw@[i as int]);
            return false;
        }
        i = i + 1;
    }
    proof {
        assert(upper_seq(s@) =~= kw@);
    }
    true
}

/// Checks whether the given string is a valid label name.
///
/// A valid label starts with an ASCII letter or an underscore and
/// contains only ASCII letters, digits and underscores.
pub fn is_valid_label(label: &str) -> (r: bool)
    ensures
        r == spec_is_valid_label(label@),
{
    let chars = chars_of(label);
    proof {
        assert(chars@.subrange(0, chars@.len() as int) =~= chars@);
    }
    valid_label_span(&chars, 0, chars.len())
}

/// Checks the span `v[start..end]` as [`is_valid_label`] checks a string.
pub fn valid_label_span(v: &Vec<char>, start: usize, end: usize) -> (r: bool)
    requires
        start <= end <= v@.len(),
    ensures
        r == spec_is_valid_label(v@.subrange(start as int, end as int)),
{
    let ghost s = v@.subrange(start as int, end as int);
    if start == end {
        return false;
    }
    if !char_is_label_start(v[start]) {
        assert(s[0] == v@[start as int]);
        return false;
    }
    assert(s[0] == v@[start as int]);
    let mut i: usize = start;
    while i < end
        invariant
            start <= i <= end <= v@.len(),
            s == v@.subrange(start as int, end as int),
            forall|j: int| 0 <= j < i - start ==> is_label_char(#[trigger] s[j]),
        decreases end - i,
    {
        if !char_is_label_char(v[i]) {
            assert(s[i - start as int] == v@[i as int]);
            return false;
        }
        assert(s[i - start as int] == v@[i as int]);
        i = i + 1;
    }
    true
}

/// The table that assigns dense identifiers to label names during one
/// parse: the name with identifier `i` sits at index `i`.
pub struct LabelTable {
    names: Vec<String>,
}

/// The index of `name` in `names`, if present. Names in a label table
/// are distinct, so this is the one index holding `name`.
pub open spec fn name_index(names: Seq<Seq<char>>, name: Seq<char>) -> Option<int>
    decreases names.len(),
{
    if names.len() == 0 {
        None
    } else if names[0] == name {
        Some(0)
    } else {
        match name_index(names.drop_first(), name) {
            Some(i) => Some(i + 1),
            None => None,
        }
    }
}

/// What looking a name up, inserting it if absent, does to a table:
/// the table afterwards and the index the name gets.
pub open spec fn spec_get_or_insert(names: Seq<Seq<char>>, name: Seq<char>) -> (
    Seq<Seq<char>>,
    int,
) {
    match name_index(names, name) {
        Some(i) => (names, i),
        None => (names.push(name), names.len() as int),
    }
}

/// `name_index` finds an index holding the name, and the first one.
pub proof fn lemma_name_index(names: Seq<Seq<char>>, name: Seq<char>)
    ensures
        match name_index(names, name) {
            Some(i) => 0 <= i < names.len() && names[i] == name && forall|j: int|
                0 <= j < i ==> names[j] != name,
            None => forall|j: int| 0 <= j < names.len() ==> names[j] != name,
        },
    decreases names.len(),
{
    if names.len() > 0 && names[0] != name {
        let t = names.drop_first();
        lemma_name_index(t, name);
        match name_index(t, name) {
            Some(i) => {
                assert(names[i + 1] == t[i]);
                assert forall|j: int| 0 <= j < i + 1 implies names[j] != name by {
                    if j > 0 {
                        assert(names[j] == t[j - 1]);
                    }
                }
            },
            None => {
                assert forall|j: int| 0 <= j < names.len() implies names[j] != name by {
                    if j > 0 {
                        assert(names[j] == t[j - 1]);
                    }
                }
            },
        }
    }
}

/// A scan that stops at the first hit computes `name_index`.
pub proof fn lemma_name_index_unique(names: Seq<Seq<char>>, name: Seq<char>, k: int)
    requires
        0 <= k <= names.len(),
        k < names.len() ==> names[k] == name,
        forall|j: int| 0 <= j < k ==> names[j] != name,
    ensures
        name_index(names, name) == if k < names.len() {
            Some(k)
        } else {
            None::<int>
        },
{
    lemma_name_index(names, name);
    match name_index(names, name) {
        Some(i) => {
            if i < k {
                assert(names[i] != name);
            }
            if k < i {
                assert(names[k] != name);
            }
        },
        None => {
            if k < names.len() {
                assert(names[k] != name);
            }
        },
    }
}

impl LabelTable {
    /// The names in the table, in identifier order.
    pub closed spec fn names(&self) -> Seq<Seq<char>> {
        Seq::new(self.names@.len(), |i: int| self.names@[i]@)
    }

    /// An empty table.
    pub fn new() -> (r: Self)
        ensures
            r.names() =~= Seq::<Seq<char>>::empty(),
    {
        LabelTable { names: Vec::new() }
    }

    /// How many names the table holds.
    pub fn len(&self) -> (r: usize)
        ensures
            r == self.names().len(),
    {
        self.names.len()
    }

    /// The identifier of `name`, if the table holds it.
    pub fn get(&self, name: &str) -> (r: Option<LabelId>)
        ensures
            match r {
                Some(id) => name_index(self.names(), name@) == Some(id.0 as int),
                None => name_index(self.names(), name@) is None,
            },
    {
        let n = self.names.len();
        let key = String::from_str(name);
        let mut i: usize = 0;
        while i < n
            invariant
                n == self.names@.len(),
                i <= n,
                key@ == name@,
                forall|j: int| 0 <= j < i ==> self.names()[j] != name@,
            decreases n - i,
        {
            if self.names[i].eq(&key) {
                proof {
                    lemma_name_index_unique(self.names(), name@, i as int);
                }
                return Some(LabelId(i));
            }
            assert(self.names()[i as int] != name@);
            i = i + 1;
        }
        proof {
            lemma_name_index_unique(self.names(), name@, n as int);
        }
        None
    }

    /// The identifier of `name`, assigning the next free one if the
    /// table does not hold the name yet.
    pub fn get_or_insert(&mut self, name: String) -> (r: LabelId)
        ensures
            ({
                let (names2, id) = spec_get_or_insert(old(self).names(), name@);
                final(self).names() == names2 && r.0 as int == id
            }),
    {
        let n = self.names.len();
        let mut i: usize = 0;
        while i < n
            invariant
                n == self.names@.len(),
                i <= n,
                forall|j: int| 0 <= j < i ==> self.names()[j] != name@,
            decreases n - i,
        {
            if self.names[i].eq(&name) {
                proof {
                    lemma_name_index_unique(self.names(), name@, i as int);
                }
                return LabelId(i);
            }
            assert(self.names()[i as int] != name@);
            i = i + 1;
        }
        proof {
            lemma_name_index_unique(self.names(), name@, n as int);
        }
        self.names.push(name);
        proof {
            assert(self.names() =~= old(self).names().push(name@));
        }
        LabelId(n)
    }
}

/// How appending a name to a table moves `name_index`: every name
/// already in the table keeps its index, and the appended name gains the
/// next index unless it already had one.
pub proof fn lemma_name_index_push(names: Seq<Seq<char>>, added: Seq<char>, name: Seq<char>)
    ensures
        name_index(names, name) matches Some(i) ==> name_index(names.push(added), name) == Some(i),
        name_index(names, name) is None && name == added ==> name_index(names.push(added), name)
            == Some(names.len() as int),
        name_index(names, name) is None && name != added ==> name_index(
            names.push(added),
            name,
        ) is None,
    decreases names.len(),
{
    let grown = names.push(added);
    if names.len() == 0 {
        assert(grown[0] == added);
        assert(grown.drop_first() =~= Seq::<Seq<char>>::empty());
        assert(name_index(grown.drop_first(), name) is None);
        if name == added {
            assert(name_index(grown, name) == Some(0int));
        } else {
            assert(name_index(grown, name) is None);
        }
    } else {
        assert(grown[0] == names[0]);
        assert(grown.drop_first() =~= names.drop_first().push(added));
        lemma_name_index_push(names.drop_first(), added, name);
        if names[0] == name {
            assert(name_index(names, name) == Some(0int));
            assert(name_index(grown, name) == Some(0int));
        } else {
            assert(name_index(grown, name) == match name_index(names.drop_first().push(added),
                name,
            ) {
                Some(i) => Some(i + 1),
                None => None::<int>,
            });
            assert(name_index(names, name) == match name_index(names.drop_first(), name) {
                Some(i) => Some(i + 1),
                None => None::<int>,
            });
        }
    }
}

/// Law: the identifier a name gets is permanent. Once a mention of a
/// label name — a forward jump to it as much as its declaration — has
/// assigned it an identifier, every later mention resolves to the same
/// identifier and leaves the table unchanged. A jump to a label declared
/// later in the source therefore carries the very identifier the
/// declaration binds.
pub proof fn lemma_label_id_permanent(names: Seq<Seq<char>>, name: Seq<char>)
    ensures
        ({
            let (names2, id) = spec_get_or_insert(names, name);
            spec_get_or_insert(names2, name) == (names2, id)
        }),
{
    match name_index(names, name) {
        Some(_) => {
        },
        None => {
            lemma_name_index_push(names, name, name);
        },
    }
}

/// Law: resolving one name never disturbs another. A name already in the
/// table keeps its identifier whatever other names are resolved after
/// it, so the order in which declarations and jumps mention labels
/// cannot change where any jump resolves to.
pub proof fn lemma_get_or_insert_preserves(
    names: Seq<Seq<char>>,
    name: Seq<char>,
    other: Seq<char>,
)
    requires
        name_index(names, other) is Some,
    ensures
        name_index(spec_get_or_insert(names, name).0, other) == name_index(names, other),
{
    match name_index(names, name) {
        Some(_) => {
        },
        None => {
            lemma_name_index_push(names, name, other);
        },
    }
}

/// The value operand a token denotes: `=n` an immediate, `*n` an
/// indirect register, a bare number a direct register; otherwise the
/// error the token earns.
pub open spec fn spec_parse_value(t: Seq<char>) -> Result<Value, ParseErrorKindView> {
    if t.len() > 0 && t[0] == '=' {
        match parse_usize(t.drop_first()) {
            Some(n) => Ok(Value::Pure(n)),
            None => Err(
                ParseErrorKindView::ArgumentIsNotValid(InvalidArgument::ArgumentValueMustBeNumeric),
            ),
        }
    } else if t.len() > 0 && t[0] == '*' {
        match parse_usize(t.drop_first()) {
            Some(n) => Ok(Value::Register(RegisterValue::Indirect(n))),
            None => Err(
                ParseErrorKindView::ArgumentIsNotValid(InvalidArgument::ArgumentValueMustBeNumeric),
            ),
        }
    } else {
        match parse_usize(t) {
            Some(n) => Ok(Value::Register(RegisterValue::Direct(n))),
            None => Err(ParseErrorKindView::ArgumentIsNotValid(InvalidArgument::ArgumentIsNotValid)),
        }
    }
}

/// The register operand a token denotes: `*n` an indirect register, a
/// bare number a direct one. An immediate is explicitly rejected: a
/// destination cannot be a literal.
pub open spec fn spec_parse_register(t: Seq<char>) -> Result<RegisterValue, ParseErrorKindView> {
    if t.len() > 0 && t[0] == '*' {
        match parse_usize(t.drop_first()) {
            Some(n) => Ok(RegisterValue::Indirect(n)),
            None => Err(
                ParseErrorKindView::ArgumentIsNotValid(InvalidArgument::ArgumentValueMustBeNumeric),
            ),
        }
    } else if parse_usize(t) is Some {
        Ok(RegisterValue::Direct(parse_usize(t).unwrap()))
    } else if t.len() > 0 && t[0] == '=' {
        Err(ParseErrorKindView::ArgumentIsNotValid(InvalidArgument::PureArgumentIsNotAllowed))
    } else {
        Err(ParseErrorKindView::ArgumentIsNotValid(InvalidArgument::ArgumentIsNotValid))
    }
}

/// Whether a word names an operation that takes a value operand.
pub open spec fn is_value_kw(s: Seq<char>) -> bool {
    ||| is_keyword(s, "LOAD"@)
    ||| is_keyword(s, "ADD"@)
    ||| is_keyword(s, "SUB"@)
    ||| is_keyword(s, "MULT"@)
    ||| is_keyword(s, "MUL"@)
    ||| is_keyword(s, "DIV"@)
    ||| is_keyword(s, "WRITE"@)
    ||| is_keyword(s, "OUTPUT"@)
}

/// Whether a word names a jump operation.
pub open spec fn is_jump_kw(s: Seq<char>) -> bool {
    ||| is_keyword(s, "JUMP"@)
    ||| is_keyword(s, "JMP"@)
    ||| is_keyword(s, "JZ"@)
    ||| is_keyword(s, "JZERO"@)
    ||| is_keyword(s, "JGZ"@)
    ||| is_keyword(s, "JGTZ"@)
}

/// Whether a word names an operation that takes a register operand.
pub open spec fn is_register_kw(s: Seq<char>) -> bool {
    ||| is_keyword(s, "STORE"@)
    ||| is_keyword(s, "INPUT"@)
    ||| is_keyword(s, "READ"@)
}

/// The operation a value-taking mnemonic and its argument token denote.
pub open spec fn spec_with_value(opcode: Seq<char>, tail: Seq<char>) -> Result<
    Op,
    ParseErrorKindView,
> {
    match spec_parse_value(tail) {
        Err(k) => Err(k),
        Ok(arg) => {
            if is_keyword(opcode, "LOAD"@) {
                Ok(Op::Load(arg))
            } else if is_keyword(opcode, "OUTPUT"@) || is_keyword(opcode, "WRITE"@) {
                Ok(Op::Output(arg))
            } else if is_keyword(opcode, "ADD"@) {
                Ok(Op::Add(arg))
            } else if is_keyword(opcode, "SUB"@) {
                Ok(Op::Sub(arg))
            } else if is_keyword(opcode, "MUL"@) || is_keyword(opcode, "MULT"@) {
                Ok(Op::Mult(arg))
            } else if is_keyword(opcode, "DIV"@) {
                Ok(Op::Div(arg))
            } else {
                Err(ParseErrorKindView::UnsupportedOpcode(opcode))
            }
        },
    }
}

/// The operation a register-taking mnemonic and its argument token
/// denote.
pub open spec fn spec_with_register(opcode: Seq<char>, tail: Seq<char>) -> Result<
    Op,
    ParseErrorKindView,
> {
    match spec_parse_register(tail) {
        Err(k) => Err(k),
        Ok(arg) => {
            if is_keyword(opcode, "STORE"@) {
                Ok(Op::Store(arg))
            } else if is_keyword(opcode, "INPUT"@) || is_keyword(opcode, "READ"@) {
                Ok(Op::Input(arg))
            } else {
                Err(ParseErrorKindView::UnsupportedOpcode(opcode))
            }
        },
    }
}

/// The operation a jump mnemonic and its label token denote, together
/// with the label table afterwards: resolving the name may assign it a
/// fresh identifier.
pub open spec fn spec_with_label(
    opcode: Seq<char>,
    tail: Seq<char>,
    names: Seq<Seq<char>>,
) -> (Seq<Seq<char>>, Result<Op, ParseErrorKindView>) {
    if !spec_is_valid_label(tail) {
        (names, Err(ParseErrorKindView::LabelIsNotValid))
    } else {
        let (names2, id) = spec_get_or_insert(names, tail);
        let lid = LabelId(id as usize);
        if is_keyword(opcode, "JUMP"@) || is_keyword(opcode, "JMP"@) {
            (names2, Ok(Op::Jump(lid)))
        } else if is_keyword(opcode, "JZ"@) || is_keyword(opcode, "JZERO"@) {
            (names2, Ok(Op::JumpIfZero(lid)))
        } else if is_keyword(opcode, "JGZ"@) || is_keyword(opcode, "JGTZ"@) {
            (names2, Ok(Op::JumpGreaterZero(lid)))
        } else {
            (names2, Err(ParseErrorKindView::UnsupportedOpcode(opcode)))
        }
    }
}

/// What a head token and an optional argument token denote, with the
/// label table afterwards.
pub open spec fn spec_dispatch(
    head: Seq<char>,
    tail: Option<Seq<char>>,
    names: Seq<Seq<char>>,
) -> (Seq<Seq<char>>, Result<Op, ParseErrorKindView>) {
    if is_value_kw(head) {
        match tail {
            None => (names, Err(ParseErrorKindView::ArgumentIsRequired)),
            Some(t) => (names, spec_with_value(head, t)),
        }
    } else if is_jump_kw(head) {
        match tail {
            None => (names, Err(ParseErrorKindView::ArgumentIsRequired)),
            Some(t) => spec_with_label(head, t, names),
        }
    } else if is_register_kw(head) {
        match tail {
            None => (names, Err(ParseErrorKindView::ArgumentIsRequired)),
            Some(t) => (names, spec_with_register(head, t)),
        }
    } else if is_keyword(head, "HALT"@) {
        (names, Ok(Op::Halt))
    } else {
        (names, Err(ParseErrorKindView::UnsupportedOpcode(head)))
    }
}

/// Parses a value operand token and pairs it with a value-taking
/// mnemonic: `LOAD`, `ADD`, `SUB`, `MUL`/`MULT`, `DIV` or
/// `OUTPUT`/`WRITE`, compared without regard to ASCII case.
pub fn parse_with_value(opcode: &str, tail: &str) -> (r: Result<Op, ParseErrorKind>)
    ensures
        match r {
            Ok(op) => spec_with_value(opcode@, tail@) == Ok::<Op, ParseErrorKindView>(op),
            Err(k) => spec_with_value(opcode@, tail@) == Err::<Op, ParseErrorKindView>(k@),
        },
{
    let chars = chars_of(tail);
    let n = chars.len();
    let arg = if n > 0 && chars[0] == '=' {
        proof {
            assert(tail@[0] == '=');
            assert(tail@.drop_first() =~= chars@.subrange(1, n as int));
        }
        match parse_usize_span(&chars, 1, n) {
            Some(v) => Ok(Value::Pure(v)),
            None => Err(ParseErrorKind::argument_value_must_be_numeric()),
        }
    } else if n > 0 && chars[0] == '*' {
        proof {
            assert(tail@[0] == '*');
            assert(tail@.drop_first() =~= chars@.subrange(1, n as int));
        }
        match parse_usize_span(&chars, 1, n) {
            Some(v) => Ok(Value::Register(RegisterValue::Indirect(v))),
            None => Err(ParseErrorKind::argument_value_must_be_numeric()),
        }
    } else {
        proof {
            assert(chars@.subrange(0, n as int) =~= tail@);
        }
        match parse_usize_span(&chars, 0, n) {
            Some(v) => Ok(Value::Register(RegisterValue::Direct(v))),
            None => Err(ParseErrorKind::not_valid_argument()),
        }
    };
    match arg {
        Err(k) => Err(k),
        Ok(arg) => {
            if str_is_keyword(opcode, "LOAD") {
                Ok(Op::Load(arg))
            } else if str_is_keyword(opcode, "OUTPUT") || str_is_keyword(opcode, "WRITE") {
                Ok(Op::Output(arg))
            } else if str_is_keyword(opcode, "ADD") {
                Ok(Op::Add(arg))
            } else if str_is_keyword(opcode, "SUB") {
                Ok(Op::Sub(arg))
            } else if str_is_keyword(opcode, "MUL") || str_is_keyword(opcode, "MULT") {
                Ok(Op::Mult(arg))
            } else if str_is_keyword(opcode, "DIV") {
                Ok(Op::Div(arg))
            } else {
                Err(ParseErrorKind::UnsupportedOpcode(String::from_str(opcode)))
            }
        },
    }
}

/// Parses a register operand token and pairs it with a register-taking
/// mnemonic: `STORE` or `INPUT`/`READ`, compared without regard to
/// ASCII case.
pub fn parse_with_register(opcode: &str, tail: &str) -> (r: Result<Op, ParseErrorKind>)
    ensures
        match r {
            Ok(op) => spec_with_register(opcode@, tail@) == Ok::<Op, ParseErrorKindView>(op),
            Err(k) => spec_with_register(opcode@, tail@) == Err::<Op, ParseErrorKindView>(k@),
        },
{
    let chars = chars_of(tail);
    let n = chars.len();
    let arg = if n > 0 && chars[0] == '*' {
        proof {
            assert(tail@[0] == '*');
            assert(tail@.drop_first() =~= chars@.subrange(1, n as int));
        }
        match parse_usize_span(&chars, 1, n) {
            Some(v) => Ok(RegisterValue::Indirect(v)),
            None => Err(ParseErrorKind::argument_value_must_be_numeric()),
        }
    } else {
        proof {
            assert(chars@.subrange(0, n as int) =~= tail@);
        }
        match parse_usize_span(&chars, 0, n) {
            Some(v) => Ok(RegisterValue::Direct(v)),
            None => {
                if n > 0 && chars[0] == '=' {
                    proof {
                        assert(tail@[0] == '=');
                    }
                    Err(ParseErrorKind::pure_argument_not_allowed())
                } else {
                    Err(ParseErrorKind::not_valid_argument())
                }
            },
        }
    };
    match arg {
        Err(k) => Err(k),
        Ok(arg) => {
            if str_is_keyword(opcode, "STORE") {
                Ok(Op::Store(arg))
            } else if str_is_keyword(opcode, "INPUT") || str_is_keyword(opcode, "READ") {
                Ok(Op::Input(arg))
            } else {
                Err(ParseErrorKind::UnsupportedOpcode(String::from_str(opcode)))
            }
        },
    }
}

/// Parses a label-name token, resolving it through the label table, and
/// pairs the resulting identifier with a jump mnemonic: `JUMP`/`JMP`,
/// `JZ`/`JZERO` or `JGZ`/`JGTZ`, compared without regard to ASCII case.
pub fn parse_with_label_arg(opcode: &str, tail: &str, label_ids: &mut LabelTable) -> (r: Result<
    Op,
    ParseErrorKind,
>)
    ensures
        ({
            let (names2, res) = spec_with_label(opcode@, tail@, old(label_ids).names());
            &&& final(label_ids).names() == names2
            &&& match r {
                Ok(op) => res == Ok::<Op, ParseErrorKindView>(op),
                Err(k) => res == Err::<Op, ParseErrorKindView>(k@),
            }
        }),
{
    if !is_valid_label(tail) {
        return Err(ParseErrorKind::LabelIsNotValid);
    }
    let lid = label_ids.get_or_insert(String::from_str(tail));
    if str_is_keyword(opcode, "JUMP") || str_is_keyword(opcode, "JMP") {
        Ok(Op::Jump(lid))
    } else if str_is_keyword(opcode, "JZ") || str_is_keyword(opcode, "JZERO") {
        Ok(Op::JumpIfZero(lid))
    } else if str_is_keyword(opcode, "JGZ") || str_is_keyword(opcode, "JGTZ") {
        Ok(Op::JumpGreaterZero(lid))
    } else {
        Err(ParseErrorKind::UnsupportedOpcode(String::from_str(opcode)))
    }
}

/// Dispatches a head token and an optional argument token to the
/// operation they denote, resolving a jump's label through the table.
fn dispatch(head: &str, tail: Option<&str>, label_ids: &mut LabelTable) -> (r: Result<
    Op,
    ParseErrorKind,
>)
    ensures
        ({
            let spec_tail = match tail {
                Some(t) => Some(t@),
                None => None::<Seq<char>>,
            };
            let (names2, res) = spec_dispatch(head@, spec_tail, old(label_ids).names());
            &&& final(label_ids).names() == names2
            &&& match r {
                Ok(op) => res == Ok::<Op, ParseErrorKindView>(op),
                Err(k) => res == Err::<Op, ParseErrorKindView>(k@),
            }
        }),
{
    let is_value = str_is_keyword(head, "LOAD") || str_is_keyword(head, "ADD")
        || str_is_keyword(head, "SUB") || str_is_keyword(head, "MULT")
        || str_is_keyword(head, "MUL") || str_is_keyword(head, "DIV")
        || str_is_keyword(head, "WRITE") || str_is_keyword(head, "OUTPUT");
    if is_value {
        match tail {
            None => Err(ParseErrorKind::ArgumentIsRequired),
            Some(t) => parse_with_value(head, t),
        }
    } else {
        let is_jump = str_is_keyword(head, "JUMP") || str_is_keyword(head, "JMP")
            || str_is_keyword(head, "JZ") || str_is_keyword(head, "JZERO")
            || str_is_keyword(head, "JGZ") || str_is_keyword(head, "JGTZ");
        if is_jump {
            match tail {
                None => Err(ParseErrorKind::ArgumentIsRequired),
                Some(t) => parse_with_label_arg(head, t, label_ids),
            }
        } else {
            let is_register = str_is_keyword(head, "STORE") || str_is_keyword(head, "INPUT")
                || str_is_keyword(head, "READ");
            if is_register {
                match tail {
                    None => Err(ParseErrorKind::ArgumentIsRequired),
                    Some(t) => parse_with_register(head, t),
                }
            } else if str_is_keyword(head, "HALT") {
                Ok(Op::Halt)
            } else {
                Err(ParseErrorKind::UnsupportedOpcode(String::from_str(head)))
            }
        }
    }
}

/// What one parsed source line contributes: at most one operation and at
/// most one label declaration.
#[derive(Debug, Clone, Copy, PartialEq, Eq, Hash)]
pub struct ParsedLine {
    /// The operation on the line, if it holds one.
    pub op: Option<Op>,
    /// The label declared on the line, if it declares one.
    pub label: Option<LabelId>,
}

impl ParsedLine {
    /// Pairs an optional operation with an optional label declaration.
    pub fn new(op: Option<Op>, label: Option<LabelId>) -> (r: Self)
        ensures
            r == (ParsedLine { op, label }),
    {
        ParsedLine { op, label }
    }
}

/// What parsing one line yields: the label table afterwards, and either
/// the line's contribution or the error it earns.
pub struct LineParse {
    /// The label table after the line. A line may extend the table and
    /// still fail: its label is recorded before its operation is read.
    pub names: Seq<Seq<char>>,
    /// The line's contribution, or its error.
    pub result: Result<ParsedLine, ParseErrorKindView>,
}

/// The meaning of one source line, given the label table so far.
///
/// The comment is stripped and the rest split on whitespace. An empty
/// line contributes nothing. A first word ending in `:` declares a
/// label. What remains is one instruction at most: a head word and at
/// most one argument word.
pub open spec fn spec_parse_line(line: Seq<char>, names: Seq<Seq<char>>) -> LineParse {
    let toks = split_ws(before_comment(line));
    if toks.len() == 0 {
        LineParse { names, result: Ok(ParsedLine { op: None, label: None }) }
    } else if toks[0].len() > 0 && toks[0].last() == ':' {
        let lname = toks[0].drop_last();
        if !spec_is_valid_label(lname) {
            LineParse { names, result: Err(ParseErrorKindView::LabelIsNotValid) }
        } else {
            let (names2, id) = spec_get_or_insert(names, lname);
            let lid = LabelId(id as usize);
            let rest = toks.drop_first();
            if rest.len() == 0 {
                LineParse { names: names2, result: Ok(ParsedLine { op: None, label: Some(lid) }) }
            } else if rest.len() > 2 {
                LineParse { names: names2, result: Err(ParseErrorKindView::UnsupportedSyntax) }
            } else {
                let (names3, res) = spec_dispatch(
                    rest[0],
                    if rest.len() == 2 {
                        Some(rest[1])
                    } else {
                        None
                    },
                    names2,
                );
                LineParse {
                    names: names3,
                    result: match res {
                        Ok(op) => Ok(ParsedLine { op: Some(op), label: Some(lid) }),
                        Err(k) => Err(k),
                    },
                }
            }
        }
    } else if toks.len() > 2 {
        LineParse { names, result: Err(ParseErrorKindView::UnsupportedSyntax) }
    } else {
        let (names2, res) = spec_dispatch(
            toks[0],
            if toks.len() == 2 {
                Some(toks[1])
            } else {
                None
            },
            names,
        );
        LineParse {
            names: names2,
            result: match res {
                Ok(op) => Ok(ParsedLine { op: Some(op), label: None }),
                Err(k) => Err(k),
            },
        }
    }
}

/// Parses a single source line, resolving label names through the table.
///
/// An empty line, or one holding only a comment, contributes nothing. A
/// line may declare a label, hold one instruction, or both. The table is
/// extended by every new label name the line mentions, whether declared
/// or jumped to, even when the line then fails.
pub fn parse_line(source: &str, label_ids: &mut LabelTable) -> (r: Result<
    ParsedLine,
    ParseErrorKind,
>)
    ensures
        ({
            let lp = spec_parse_line(source@, old(label_ids).names());
            &&& final(label_ids).names() == lp.names
            &&& match r {
                Ok(pl) => lp.result == Ok::<ParsedLine, ParseErrorKindView>(pl),
                Err(k) => lp.result == Err::<ParsedLine, ParseErrorKindView>(k@),
            }
        }),
{
    let chars = chars_of(source);
    let cut = comment_cut(&chars);
    let toks = tokenize(&chars, cut);
    let ghost spec_toks = split_ws(before_comment(source@));
    proof {
        assert(span_texts(toks@, chars@) == spec_toks);
    }
    if toks.len() == 0 {
        return Ok(ParsedLine::new(None, None));
    }
    let (s0, e0) = (toks[0].0, toks[0].1);
    let ghost t0 = spec_toks[0];
    proof {
        assert(t0 == chars@.subrange(s0 as int, e0 as int));
        assert(t0.len() > 0);
        assert(t0.last() == chars@[e0 as int - 1]);
    }
    if chars[e0 - 1] == ':' {
        proof {
            assert(t0.drop_last() =~= chars@.subrange(s0 as int, e0 as int - 1));
        }
        if !valid_label_span(&chars, s0, e0 - 1) {
            return Err(ParseErrorKind::LabelIsNotValid);
        }
        let name = String::from_str(source.substring_char(s0, e0 - 1));
        let lid = label_ids.get_or_insert(name);
        if toks.len() == 1 {
            proof {
                assert(spec_toks.drop_first().len() == 0);
            }
            return Ok(ParsedLine::new(None, Some(lid)));
        }
        if toks.len() > 3 {
            proof {
                assert(spec_toks.drop_first().len() > 2);
            }
            return Err(ParseErrorKind::UnsupportedSyntax);
        }
        proof {
            assert(spec_toks.drop_first()[0] == spec_toks[1]);
            assert(spec_toks.len() == 3 ==> spec_toks.drop_first()[1] == spec_toks[2]);
        }
        let (s1, e1) = (toks[1].0, toks[1].1);
        proof {
            assert(spec_toks[1] == chars@.subrange(s1 as int, e1 as int));
        }
        let head = source.substring_char(s1, e1);
        let op = if toks.len() == 3 {
            let (s2, e2) = (toks[2].0, toks[2].1);
            proof {
                assert(spec_toks[2] == chars@.subrange(s2 as int, e2 as int));
            }
            let tail = source.substring_char(s2, e2);
            dispatch(head, Some(tail), label_ids)
        } else {
            dispatch(head, None, label_ids)
        };
        match op {
            Ok(op) => Ok(ParsedLine::new(Some(op), Some(lid))),
            Err(k) => Err(k),
        }
    } else {
        if toks.len() > 2 {
            return Err(ParseErrorKind::UnsupportedSyntax);
        }
        let head = source.substring_char(s0, e0);
        let op = if toks.len() == 2 {
            let (s1, e1) = (toks[1].0, toks[1].1);
            proof {
                assert(spec_toks[1] == chars@.subrange(s1 as int, e1 as int));
            }
            let tail = source.substring_char(s1, e1);
            dispatch(head, Some(tail), label_ids)
        } else {
            dispatch(head, None, label_ids)
        };
        match op {
            Ok(op) => Ok(ParsedLine::new(Some(op), None)),
            Err(k) => Err(k),
        }
    }
}

/// The state a parse accumulates while scanning lines: the label-name
/// table, the statements emitted so far, the label bindings made so far,
/// and the errors collected so far.
pub struct ParseState {
    pub names: Seq<Seq<char>>,
    pub instructions: Seq<Stmt>,
    pub labels: Seq<Option<CodeAddress>>,
    pub errors: Seq<ParseErrorView>,
}

/// The state a parse starts from: everything empty.
pub open spec fn initial_parse_state() -> ParseState {
    ParseState {
        names: Seq::empty(),
        instructions: Seq::empty(),
        labels: Seq::empty(),
        errors: Seq::empty(),
    }
}

/// The label table with `Some(addr)` bound at index `id`, grown with
/// unbound entries as needed. A repeated declaration rebinds the same
/// identifier, so the last declaration's address wins.
pub open spec fn bind_label(labels: Seq<Option<CodeAddress>>, id: int, addr: nat) -> Seq<
    Option<CodeAddress>,
> {
    let grown = if id < labels.len() {
        labels
    } else {
        labels + Seq::new((id + 1 - labels.len()) as nat, |_i: int| None::<CodeAddress>)
    };
    grown.update(id, Some(CodeAddress(addr as usize)))
}

/// How one line, numbered `lineno`, advances a parse: an erroneous line
/// contributes its error; a parsed line contributes its statement, and
/// binds its label to the address the next statement gets.
pub open spec fn spec_parse_step(st: ParseState, line: Seq<char>, lineno: nat) -> ParseState {
    let lp = spec_parse_line(line, st.names);
    match lp.result {
        Err(k) => ParseState {
            names: lp.names,
            errors: st.errors.push(ParseErrorView { kind: k, line: lineno }),
            ..st
        },
        Ok(pl) => {
            let addr = st.instructions.len();
            ParseState {
                names: lp.names,
                instructions: match pl.op {
                    Some(op) => st.instructions.push(Stmt { op, line: lineno as usize }),
                    None => st.instructions,
                },
                labels: match pl.label {
                    Some(l) => bind_label(st.labels, l.0 as int, addr),
                    None => st.labels,
                },
                errors: st.errors,
            }
        },
    }
}

/// A parse folded over a sequence of lines, the first numbered
/// `next_line`.
pub open spec fn spec_parse_lines(st: ParseState, lines: Seq<Seq<char>>, next_line: nat) -> ParseState
    decreases lines.len(),
{
    if lines.len() == 0 {
        st
    } else {
        spec_parse_lines(spec_parse_step(st, lines[0], next_line), lines.drop_first(), next_line + 1)
    }
}

/// Folding one more line is one more step.
pub proof fn lemma_parse_lines_snoc(st: ParseState, lines: Seq<Seq<char>>, next_line: nat, k: int)
    requires
        0 <= k < lines.len(),
    ensures
        spec_parse_lines(st, lines.take(k + 1), next_line) == spec_parse_step(
            spec_parse_lines(st, lines.take(k), next_line),
            lines[k],
            (next_line + k) as nat,
        ),
    decreases k,
{
    let stepped = spec_parse_step(st, lines[0], next_line);
    let t = lines.drop_first();
    if k == 0 {
        assert(lines.take(0) =~= Seq::<Seq<char>>::empty());
        assert(lines.take(1).drop_first() =~= Seq::<Seq<char>>::empty());
        assert(lines.take(1)[0] == lines[0]);
        assert(spec_parse_lines(st, lines.take(0), next_line) == st);
        assert(spec_parse_lines(st, lines.take(1), next_line) == spec_parse_lines(
            spec_parse_step(st, lines[0], next_line),
            lines.take(1).drop_first(),
            next_line + 1,
        ));
    } else {
        assert(lines.take(k + 1)[0] == lines[0]);
        assert(lines.take(k)[0] == lines[0]);
        assert(lines.take(k + 1).drop_first() =~= t.take(k));
        assert(lines.take(k).drop_first() =~= t.take(k - 1));
        assert(t[k - 1] == lines[k]);
        assert(spec_parse_lines(st, lines.take(k + 1), next_line) == spec_parse_lines(
            stepped,
            t.take(k),
            next_line + 1,
        ));
        assert(spec_parse_lines(st, lines.take(k), next_line) == spec_parse_lines(
            stepped,
            t.take(k - 1),
            next_line + 1,
        ));
        lemma_parse_lines_snoc(stepped, t, next_line + 1, k - 1);
    }
}

/// The label a statement jumps to, if it is a jump.
pub open spec fn jump_target(op: Op) -> Option<LabelId> {
    match op {
        Op::Jump(l) => Some(l),
        Op::JumpIfZero(l) => Some(l),
        Op::JumpGreaterZero(l) => Some(l),
        _ => None,
    }
}

/// Whether the table binds the label to an address.
pub open spec fn label_bound(labels: Seq<Option<CodeAddress>>, l: LabelId) -> bool {
    l.0 < labels.len() && labels[l.0 as int] is Some
}

/// The error a statement earns in the validation pass: one invalid-label
/// error, at the statement's line, if it jumps to an unbound label.
pub open spec fn jump_check(stmt: Stmt, labels: Seq<Option<CodeAddress>>) -> Seq<ParseErrorView> {
    match jump_target(stmt.op) {
        Some(l) => {
            if label_bound(labels, l) {
                Seq::empty()
            } else {
                seq![
                    ParseErrorView {
                        kind: ParseErrorKindView::LabelIsNotValid,
                        line: stmt.line as nat,
                    },
                ]
            }
        },
        None => Seq::empty(),
    }
}

/// The errors of the validation pass: every jump to a label the table
/// never bound, attributed to the jump's own line.
pub open spec fn undefined_label_errors(
    instrs: Seq<Stmt>,
    labels: Seq<Option<CodeAddress>>,
) -> Seq<ParseErrorView>
    decreases instrs.len(),
{
    if instrs.len() == 0 {
        Seq::empty()
    } else {
        jump_check(instrs[0], labels) + undefined_label_errors(instrs.drop_first(), labels)
    }
}

/// Checking one more statement appends that statement's check.
pub proof fn lemma_undefined_label_errors_snoc(
    instrs: Seq<Stmt>,
    labels: Seq<Option<CodeAddress>>,
    k: int,
)
    requires
        0 <= k < instrs.len(),
    ensures
        undefined_label_errors(instrs.take(k + 1), labels) == undefined_label_errors(
            instrs.take(k),
            labels,
        ) + jump_check(instrs[k], labels),
    decreases k,
{
    let t = instrs.drop_first();
    if k == 0 {
        assert(instrs.take(0) =~= Seq::<Stmt>::empty());
        assert(instrs.take(1).drop_first() =~= Seq::<Stmt>::empty());
        assert(instrs.take(1)[0] == instrs[0]);
        assert(jump_check(instrs[0], labels) + Seq::<ParseErrorView>::empty() =~= jump_check(
            instrs[0],
            labels,
        ));
        assert(Seq::<ParseErrorView>::empty() + jump_check(instrs[0], labels) =~= jump_check(
            instrs[0],
            labels,
        ));
    } else {
        assert(instrs.take(k + 1)[0] == instrs[0]);
        assert(instrs.take(k)[0] == instrs[0]);
        assert(instrs.take(k + 1).drop_first() =~= t.take(k));
        assert(instrs.take(k).drop_first() =~= t.take(k - 1));
        assert(t[k - 1] == instrs[k]);
        lemma_undefined_label_errors_snoc(t, labels, k - 1);
        assert((jump_check(instrs[0], labels) + undefined_label_errors(t.take(k - 1), labels))
            + jump_check(instrs[k], labels) =~= jump_check(instrs[0], labels) + (
        undefined_label_errors(t.take(k - 1), labels) + jump_check(instrs[k], labels)));
    }
}

/// The meaning of a whole source text: the program it assembles to, or
/// every error it earns — the per-line errors, then the validation
/// pass's errors on jumps to labels never declared.
pub open spec fn spec_parse(src: Seq<char>) -> Result<ProgramView, Seq<ParseErrorView>> {
    let st = spec_parse_lines(initial_parse_state(), split_lines(src), 1);
    let errs = st.errors + undefined_label_errors(st.instructions, st.labels);
    if errs.len() > 0 {
        Err(errs)
    } else {
        Ok(ProgramView { instructions: st.instructions, labels: st.labels })
    }
}

/// Binds `Some(CodeAddress(addr))` at index `id`, growing the table with
/// unbound entries as needed.
fn bind_label_exec(labels: &mut Vec<Option<CodeAddress>>, id: usize, addr: usize)
    ensures
        final(labels)@ == bind_label(old(labels)@, id as int, addr as nat),
{
    while labels.len() <= id
        invariant
            old(labels)@.len() <= labels@.len(),
            labels@.len() <= id + 1 || labels@.len() == old(labels)@.len(),
            forall|j: int| 0 <= j < old(labels)@.len() ==> labels@[j] == old(labels)@[j],
            forall|j: int| old(labels)@.len() <= j < labels@.len() ==> labels@[j] is None,
        decreases id + 1 - labels@.len(),
    {
        labels.push(None);
    }
    labels[id] = Some(CodeAddress(addr));
    proof {
        assert(final(labels)@ =~= bind_label(old(labels)@, id as int, addr as nat));
    }
}

/// Dispatching an instruction can extend the label table — a jump
/// resolves its target name — but never moves a name already in it.
pub proof fn lemma_dispatch_preserves_names(
    head: Seq<char>,
    tail: Option<Seq<char>>,
    names: Seq<Seq<char>>,
    other: Seq<char>,
)
    requires
        name_index(names, other) is Some,
    ensures
        name_index(spec_dispatch(head, tail, names).0, other) == name_index(names, other),
{
    if is_jump_kw(head) && !(is_value_kw(head)) {
        match tail {
            Some(t) => {
                if spec_is_valid_label(t) {
                    lemma_get_or_insert_preserves(names, t, other);
                }
            },
            None => {
            },
        }
    }
}

/// Parsing a line can extend the label table — through a declaration or
/// a jump — but never moves a name already in it.
pub proof fn lemma_parse_line_preserves_names(
    line: Seq<char>,
    names: Seq<Seq<char>>,
    other: Seq<char>,
)
    requires
        name_index(names, other) is Some,
    ensures
        name_index(spec_parse_line(line, names).names, other) == name_index(names, other),
{
    let toks = split_ws(before_comment(line));
    if toks.len() == 0 {
    } else if toks[0].len() > 0 && toks[0].last() == ':' {
        let lname = toks[0].drop_last();
        if spec_is_valid_label(lname) {
            lemma_get_or_insert_preserves(names, lname, other);
            let (names2, _) = spec_get_or_insert(names, lname);
            let rest = toks.drop_first();
            if 1 <= rest.len() <= 2 {
                lemma_dispatch_preserves_names(
                    rest[0],
                    if rest.len() == 2 {
                        Some(rest[1])
                    } else {
                        None
                    },
                    names2,
                    other,
                );
            }
        }
    } else if toks.len() <= 2 {
        lemma_dispatch_preserves_names(
            toks[0],
            if toks.len() == 2 {
                Some(toks[1])
            } else {
                None
            },
            names,
            other,
        );
    }
}

/// Law: a label name's identifier is fixed for the whole parse. Once any
/// line — a forward jump to a name as much as its declaration — has
/// given the name an identifier, every later line leaves that
/// assignment exactly where it is. A declaration that comes after a
/// forward jump therefore binds the very identifier the jump already
/// carries, which is why forward and backward references resolve alike.
pub proof fn lemma_label_id_stable_across_lines(
    st: ParseState,
    lines: Seq<Seq<char>>,
    next_line: nat,
    name: Seq<char>,
)
    requires
        name_index(st.names, name) is Some,
    ensures
        name_index(spec_parse_lines(st, lines, next_line).names, name) == name_index(
            st.names,
            name,
        ),
    decreases lines.len(),
{
    if lines.len() > 0 {
        let lp = spec_parse_line(lines[0], st.names);
        lemma_parse_line_preserves_names(lines[0], st.names, name);
        let stepped = spec_parse_step(st, lines[0], next_line);
        assert(stepped.names == lp.names);
        lemma_label_id_stable_across_lines(stepped, lines.drop_first(), next_line + 1, name);
    }
}

/// A validation pass that reports nothing has checked everything: every
/// jump in the statements is bound by the table.
pub proof fn lemma_no_undefined_label_errors(instrs: Seq<Stmt>, labels: Seq<Option<CodeAddress>>)
    requires
        undefined_label_errors(instrs, labels).len() == 0,
    ensures
        forall|i: int|
            0 <= i < instrs.len() ==> match jump_target(#[trigger] instrs[i].op) {
                Some(l) => label_bound(labels, l),
                None => true,
            },
    decreases instrs.len(),
{
    if instrs.len() > 0 {
        let t = instrs.drop_first();
        assert(undefined_label_errors(instrs, labels) == jump_check(instrs[0], labels)
            + undefined_label_errors(t, labels));
        lemma_no_undefined_label_errors(t, labels);
        assert forall|i: int|
            0 <= i < instrs.len() implies match jump_target(#[trigger] instrs[i].op) {
            Some(l) => label_bound(labels, l),
            None => true,
        } by {
            if i > 0 {
                assert(instrs[i] == t[i - 1]);
            }
        }
    }
}

/// Law: in a successfully parsed program every jump resolves. A source
/// text that parses without error binds each jump's label identifier to
/// a code address, so no `JUMP missing` survives parsing — the parse
/// rejects it with an invalid-label error on the jump's line instead.
pub proof fn lemma_parsed_jumps_resolve(src: Seq<char>, pv: ProgramView)
    requires
        spec_parse(src) == Ok::<ProgramView, Seq<ParseErrorView>>(pv),
    ensures
        forall|i: int|
            0 <= i < pv.instructions.len() ==> match jump_target(#[trigger] pv.instructions[i].op) {
                Some(l) => pv.decode(l) is Some,
                None => true,
            },
{
    let st = spec_parse_lines(initial_parse_state(), split_lines(src), 1);
    let errs = st.errors + undefined_label_errors(st.instructions, st.labels);
    assert(errs.len() == 0);
    lemma_no_undefined_label_errors(st.instructions, st.labels);
}

/// Parses source text into a program.
///
/// Scans the text line by line, collecting every error rather than
/// stopping at the first, then validates that every jump names a label
/// some line declared. Returns the program only when no error at all
/// occurred; the result is exactly what [`spec_parse`] gives the text.
pub fn parse(source: &str) -> (r: Result<Program, Vec<ParseError>>)
    ensures
        match r {
            Ok(p) => spec_parse(source@) == Ok::<ProgramView, Seq<ParseErrorView>>(p@),
            Err(es) => spec_parse(source@) == Err::<ProgramView, Seq<ParseErrorView>>(
                es.deep_view(),
            ) && es.len() > 0,
        },
{
    let chars = chars_of(source);
    let spans = line_spans(&chars);
    let ghost lines = split_lines(source@);
    let ghost st0 = initial_parse_state();
    let mut label_ids = LabelTable::new();
    let mut instructions: Vec<Stmt> = Vec::new();
    let mut labels: Vec<Option<CodeAddress>> = Vec::new();
    let mut errors: Vec<ParseError> = Vec::new();
    let mut k: usize = 0;
    proof {
        assert(lines.take(0) =~= Seq::<Seq<char>>::empty());
        assert(errors.deep_view() =~= Seq::<ParseErrorView>::empty());
    }
    while k < spans.len()
        invariant
            chars@ == source@,
            span_texts(spans@, chars@) == lines,
            forall|i: int| 0 <= i < spans@.len() ==> #[trigger] spans@[i].0 <= spans@[i].1
                <= chars@.len(),
            k <= spans@.len() == lines.len(),
            ({
                let st = spec_parse_lines(st0, lines.take(k as int), 1);
                &&& st.names == label_ids.names()
                &&& st.instructions == instructions@
                &&& st.labels == labels@
                &&& st.errors == errors.deep_view()
            }),
        decreases spans@.len() - k,
    {
        let (a, b) = (spans[k].0, spans[k].1);
        let line = source.substring_char(a, b);
        proof {
            assert(lines[k as int] == chars@.subrange(a as int, b as int));
        }
        let ghost st = spec_parse_lines(st0, lines.take(k as int), 1);
        let lineno = k + 1;
        let res = parse_line(line, &mut label_ids);
        match res {
            Ok(pl) => {
                let addr = instructions.len();
                if let Some(op) = pl.op {
                    instructions.push(Stmt::new(op, lineno));
                }
                if let Some(l) = pl.label {
                    bind_label_exec(&mut labels, l.0, addr);
                }
            },
            Err(kind) => {
                errors.push(ParseError { kind, line: lineno });
            },
        }
        proof {
            lemma_parse_lines_snoc(st0, lines, 1, k as int);
            let st2 = spec_parse_step(st, lines[k as int], (1 + k) as nat);
            assert(st2.instructions =~= instructions@);
            assert(st2.labels =~= labels@);
            assert(st2.errors =~= errors.deep_view());
        }
        k = k + 1;
    }
    proof {
        assert(lines.take(lines.len() as int) =~= lines);
    }
    let ghost stf = spec_parse_lines(st0, lines, 1);
    // Validation pass: report every jump whose label was never declared.
    let ghost line_errors = errors.deep_view();
    let mut i: usize = 0;
    proof {
        assert(stf.instructions.take(0) =~= Seq::<Stmt>::empty());
        assert(line_errors + Seq::<ParseErrorView>::empty() =~= line_errors);
    }
    while i < instructions.len()
        invariant
            i <= instructions@.len(),
            stf.instructions == instructions@,
            stf.labels == labels@,
            errors.deep_view() == line_errors + undefined_label_errors(
                stf.instructions.take(i as int),
                stf.labels,
            ),
        decreases instructions@.len() - i,
    {
        let stmt = instructions[i];
        let ghost prev = errors.deep_view();
        let ghost check = jump_check(stmt, stf.labels);
        let target = match stmt.op {
            Op::Jump(l) => Some(l),
            Op::JumpIfZero(l) => Some(l),
            Op::JumpGreaterZero(l) => Some(l),
            _ => None,
        };
        proof {
            assert(target == jump_target(stmt.op));
        }
        if let Some(l) = target {
            let bound = l.0 < labels.len() && labels[l.0].is_some();
            proof {
                assert(bound == label_bound(stf.labels, l));
            }
            if !bound {
                let pe = ParseError { kind: ParseErrorKind::LabelIsNotValid, line: stmt.line };
                errors.push(pe);
                proof {
                    assert(errors.deep_view() =~= prev.push(pe@));
                    assert(check =~= seq![pe@]);
                    assert(prev.push(pe@) =~= prev + check);
                }
            } else {
                proof {
                    assert(check =~= Seq::<ParseErrorView>::empty());
                    assert(prev + check =~= prev);
                }
            }
        } else {
            proof {
                assert(check =~= Seq::<ParseErrorView>::empty());
                assert(prev + check =~= prev);
            }
        }
        proof {
            lemma_undefined_label_errors_snoc(stf.instructions, stf.labels, i as int);
            assert(errors.deep_view() =~= prev + check);
            assert((line_errors + undefined_label_errors(stf.instructions.take(i as int), stf.labels))
                + check =~= line_errors + undefined_label_errors(
                stf.instructions.take(i as int + 1),
                stf.labels,
            ));
        }
        i = i + 1;
    }
    proof {
        assert(stf.instructions.take(instructions@.len() as int) =~= stf.instructions);
    }
    if errors.len() == 0 {
        proof {
            assert(errors.deep_view().len() == 0);
        }
        Ok(Program { instructions, labels })
    } else {
        proof {
            assert(errors.deep_view().len() == errors@.len());
        }
        Err(errors)
    }
}

} // verus!
