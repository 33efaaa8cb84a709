//! The opcode table: which byte each mnemonic stands for.
//!
//! The table is built from an instruction set, a list of up to 256 slots in
//! which slot `v` holds the name of the instruction with opcode `v`, or
//! nothing. Each name is registered twice, as it is written and in lower
//! case. The instruction set in use is revm's.

use crate::text::{chars_of, digit, is_digit, is_letter, is_word, letter, lower, lowered};
use revm::interpreter::opcode::OPCODE_INFO_JUMPTABLE;
use vstd::hash_map::StringHashMap;
use vstd::prelude::*;

verus! {

/// The name that revm's instruction table gives to `opcode`, or `None` where
/// the table defines no instruction for it.
pub uninterp spec fn mnemonic_of(opcode: u8) -> Option<Seq<char>>;

/// Entry `opcode` of revm's `OPCODE_INFO_JUMPTABLE`, as the `OpCodeInfo::name`
/// of the instruction found there. Nothing is claimed of the name but that
/// it is [`mnemonic_of`] the opcode: the same on every call.
#[verifier::external_body]
fn instruction_name(opcode: u8) -> (name: Option<String>)
    ensures
        name.deep_view() == mnemonic_of(opcode),
{
    match OPCODE_INFO_JUMPTABLE[opcode as usize] {
        Some(info) => Some(info.name().to_owned()),
        None => None,
    }
}

/// revm's instruction set: slot `v` holds the name of opcode `v`.
pub open spec fn instruction_set() -> Seq<Option<Seq<char>>> {
    Seq::new(256, |v: int| mnemonic_of(v as u8))
}

/// Whether `s` has the shape of a mnemonic: a letter followed by letters and
/// digits. Such a text is always one token, and never a prefixed literal.
pub open spec fn is_mnemonic(s: Seq<char>) -> bool {
    &&& s.len() > 0
    &&& is_letter(s[0])
    &&& forall|i: int| 0 <= i < s.len() ==> is_letter(#[trigger] s[i]) || is_digit(s[i])
}

/// The table that registering `names` slot by slot gives: each name that
/// has the shape of a mnemonic maps to the index of its slot, and so does
/// its lower-case form. Where two slots give the same text, the later slot
/// wins. A name that has not the shape of a mnemonic is left out, so that
/// what is registered is always one token and never a prefixed literal.
pub open spec fn registry(names: Seq<Option<Seq<char>>>) -> Map<Seq<char>, u8>
    decreases names.len(),
{
    if names.len() == 0 {
        Map::empty()
    } else {
        let earlier = registry(names.drop_last());
        let opcode = (names.len() - 1) as u8;
        match names.last() {
            Some(name) => if is_mnemonic(name) {
                earlier.insert(name, opcode).insert(lower(name), opcode)
            } else {
                earlier
            },
            None => earlier,
        }
    }
}

/// Whether every text that `table` registers has the shape of a mnemonic.
pub open spec fn well_formed(table: Map<Seq<char>, u8>) -> bool {
    forall|text: Seq<char>| table.contains_key(text) ==> is_mnemonic(text)
}

/// The lower-case form of a mnemonic is a mnemonic.
pub proof fn lemma_lower_is_mnemonic(name: Seq<char>)
    requires
        is_mnemonic(name),
    ensures
        is_mnemonic(lower(name)),
{
    assert forall|i: int| 0 <= i < lower(name).len() implies is_letter(#[trigger] lower(name)[i])
        || is_digit(lower(name)[i]) by {
        assert(is_letter(name[i]) || is_digit(name[i]));
    }
}

/// A mnemonic is a word: the lexer hands it out as one token.
pub proof fn lemma_mnemonic_is_word(name: Seq<char>)
    requires
        is_mnemonic(name),
    ensures
        is_word(name),
{
    assert forall|i: int| 0 <= i < name.len() implies crate::text::is_word_char(
        #[trigger] name[i],
    ) by {
        assert(is_letter(name[i]) || is_digit(name[i]));
    }
}

/// Every registry is well formed.
pub proof fn lemma_registry_well_formed(names: Seq<Option<Seq<char>>>)
    ensures
        well_formed(registry(names)),
    decreases names.len(),
{
    if names.len() > 0 {
        lemma_registry_well_formed(names.drop_last());
        if let Some(name) = names.last() {
            if is_mnemonic(name) {
                lemma_lower_is_mnemonic(name);
            }
        }
    }
}

/// Whether slot `v` of `names` registers `text`: the slot holds a mnemonic
/// that is `text`, or whose lower-case form is `text`.
pub open spec fn registers(names: Seq<Option<Seq<char>>>, v: int, text: Seq<char>) -> bool {
    &&& 0 <= v < names.len()
    &&& names[v] matches Some(name)
    &&& is_mnemonic(name)
    &&& (text == name || text == lower(name))
}

/// A text is registered exactly if some slot registers it, and it then maps
/// to the last such slot.
pub proof fn lemma_registry_lookup(names: Seq<Option<Seq<char>>>, text: Seq<char>)
    requires
        names.len() <= 256,
    ensures
        registry(names).contains_key(text) <==> exists|v: int| registers(names, v, text),
        registry(names).contains_key(text) ==> registers(names, registry(names)[text] as int, text),
        forall|v: int| registers(names, v, text) ==> v <= registry(names)[text],
    decreases names.len(),
{
    if names.len() > 0 {
        let earlier = names.drop_last();
        let last = names.len() - 1;
        lemma_registry_lookup(earlier, text);
        assert forall|v: int| registers(earlier, v, text) implies registers(names, v, text) by {
            assert(names[v] == earlier[v]);
        }
        assert forall|v: int| registers(names, v, text) && v < last implies registers(
            earlier,
            v,
            text,
        ) by {
            assert(names[v] == earlier[v]);
        }
        if registers(names, last, text) {
            assert(registry(names)[text] == last);
        } else if registry(earlier).contains_key(text) {
            assert(registers(earlier, registry(earlier)[text] as int, text));
            assert(registry(names)[text] == registry(earlier)[text]);
        }
    }
}

/// Whether `name` has the shape of a mnemonic.
pub fn mnemonic_shaped(name: &str) -> (r: bool)
    ensures
        r == is_mnemonic(name@),
{
    let chars = chars_of(name);
    if chars.len() == 0 || !letter(chars[0]) {
        return false;
    }
    let mut i: usize = 0;
    while i < chars.len()
        invariant
            i <= chars.len(),
            chars@ == name@,
            forall|k: int| 0 <= k < i ==> is_letter(#[trigger] chars@[k]) || is_digit(chars@[k]),
        decreases chars.len() - i,
    {
        if !letter(chars[i]) && !digit(chars[i]) {
            return false;
        }
        i += 1;
    }
    true
}

/// The names of revm's instruction table, slot by slot.
pub fn instruction_names() -> (names: Vec<Option<String>>)
    ensures
        names.deep_view() == instruction_set(),
{
    let mut names: Vec<Option<String>> = Vec::new();
    let mut opcode: usize = 0;
    while opcode < 256
        invariant
            opcode <= 256,
            names.len() == opcode,
            forall|v: int| 0 <= v < opcode ==> (#[trigger] names@[v]).deep_view() == mnemonic_of(v as u8),
        decreases 256 - opcode,
    {
        let name = instruction_name(opcode as u8);
        names.push(name);
        opcode += 1;
    }
    assert(names.deep_view() =~= instruction_set());
    names
}

/// A mapping from mnemonic to opcode. It never changes once built.
pub struct OpcodeTable {
    map: StringHashMap<u8>,
}

impl View for OpcodeTable {
    type V = Map<Seq<char>, u8>;

    closed spec fn view(&self) -> Map<Seq<char>, u8> {
        self.map@
    }
}

impl OpcodeTable {
    /// Whether every registered text has the shape of a mnemonic. Both
    /// constructors establish it.
    pub open spec fn wf(&self) -> bool {
        well_formed(self@)
    }

    /// The table of the instruction set `names`.
    pub fn from_names(names: &Vec<Option<String>>) -> (table: OpcodeTable)
        requires
            names.len() <= 256,
        ensures
            table@ == registry(names.deep_view()),
            table.wf(),
    {
        let mut map: StringHashMap<u8> = StringHashMap::new();
        let ghost slots = names.deep_view();
        let mut i: usize = 0;
        assert(slots.take(0) =~= Seq::empty());
        while i < names.len()
            invariant
                i <= names.len() <= 256,
                slots == names.deep_view(),
                map@ == registry(slots.take(i as int)),
            decreases names.len() - i,
        {
            assert(slots.take(i + 1).drop_last() =~= slots.take(i as int));
            assert(slots.take(i + 1).last() == names@[i as int].deep_view());
            match &names[i] {
                Some(name) => {
                    if mnemonic_shaped(name.as_str()) {
                        map.insert(name.clone(), i as u8);
                        map.insert(lowered(name.as_str()), i as u8);
                    }
                },
                None => {},
            }
            i += 1;
        }
        assert(slots.take(i as int) =~= slots);
        proof {
            lemma_registry_well_formed(slots);
        }
        OpcodeTable { map }
    }

    /// The table of revm's instruction set.
    pub fn new() -> (table: OpcodeTable)
        ensures
            table@ == registry(instruction_set()),
            table.wf(),
    {
        let names = instruction_names();
        OpcodeTable::from_names(&names)
    }

    /// The opcode that `token` is registered for, if it is registered.
    pub fn lookup(&self, token: &str) -> (opcode: Option<u8>)
        ensures
            opcode == (if self@.contains_key(token@) {
                Some(self@[token@])
            } else {
                None
            }),
    {
        match self.map.get(token) {
            Some(opcode) => Some(*opcode),
            None => None,
        }
    }
}

} // verus!
