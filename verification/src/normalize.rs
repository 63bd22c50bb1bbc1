//! Binding normalization: turns a parsed `HotkeyBinding` into a canonical
//! `HkmData` descriptor (modifier set + canonical key-code name + payload).
//! The trigger token is resolved through a key-name table (letters, digits
//! and `escape`) and otherwise through the platform key-code names; modifier
//! tokens are resolved through a fixed four-entry alias table, and tokens
//! outside it are ignored.

use vstd::prelude::*;

use std::str::FromStr;

use crate::scan::chars_of;
use crate::scan::string_of;
use crate::whkdrc::BindingModel;
use crate::whkdrc::HotkeyBinding;

verus! {

/// The set of modifier keys of a hotkey.
#[derive(Debug, Clone, Copy, PartialEq, Eq, Hash, Structural)]
pub struct ModKeys {
    pub ctrl: bool,
    pub alt: bool,
    pub shift: bool,
    pub super_key: bool,
}

impl ModKeys {
    pub open spec fn spec_empty() -> ModKeys {
        ModKeys { ctrl: false, alt: false, shift: false, super_key: false }
    }

    pub fn empty() -> (r: ModKeys)
        ensures
            r == ModKeys::spec_empty(),
    {
        ModKeys { ctrl: false, alt: false, shift: false, super_key: false }
    }

    pub open spec fn spec_union(self, o: ModKeys) -> ModKeys {
        ModKeys {
            ctrl: self.ctrl || o.ctrl,
            alt: self.alt || o.alt,
            shift: self.shift || o.shift,
            super_key: self.super_key || o.super_key,
        }
    }

    /// The union of two modifier sets.
    pub fn union(self, o: ModKeys) -> (r: ModKeys)
        ensures
            r == self.spec_union(o),
    {
        ModKeys {
            ctrl: self.ctrl || o.ctrl,
            alt: self.alt || o.alt,
            shift: self.shift || o.shift,
            super_key: self.super_key || o.super_key,
        }
    }

    pub open spec fn spec_is_empty(self) -> bool {
        self == ModKeys::spec_empty()
    }

    pub fn is_empty(self) -> (r: bool)
        ensures
            r == self.spec_is_empty(),
    {
        !self.ctrl && !self.alt && !self.shift && !self.super_key
    }
}

/// The modifier set named by one token: `ctrl`, `alt`, `shift` or `super`;
/// any other token names no modifier.
pub open spec fn spec_modifier(s: Seq<char>) -> ModKeys {
    if s == seq!['c', 't', 'r', 'l'] {
        ModKeys { ctrl: true, alt: false, shift: false, super_key: false }
    } else if s == seq!['a', 'l', 't'] {
        ModKeys { ctrl: false, alt: true, shift: false, super_key: false }
    } else if s == seq!['s', 'h', 'i', 'f', 't'] {
        ModKeys { ctrl: false, alt: false, shift: true, super_key: false }
    } else if s == seq!['s', 'u', 'p', 'e', 'r'] {
        ModKeys { ctrl: false, alt: false, shift: false, super_key: true }
    } else {
        ModKeys::spec_empty()
    }
}

/// Resolves one modifier token through the alias table.
pub fn modifier_from_string(modifier: &str) -> (r: ModKeys)
    ensures
        r == spec_modifier(modifier@),
{
    let cs = chars_of(modifier);
    let ctrl: Vec<char> = vec!['c', 't', 'r', 'l'];
    let alt: Vec<char> = vec!['a', 'l', 't'];
    let shift: Vec<char> = vec!['s', 'h', 'i', 'f', 't'];
    let sup: Vec<char> = vec!['s', 'u', 'p', 'e', 'r'];
    if crate::scan::chars_eq(&cs, &ctrl) {
        ModKeys { ctrl: true, alt: false, shift: false, super_key: false }
    } else if crate::scan::chars_eq(&cs, &alt) {
        ModKeys { ctrl: false, alt: true, shift: false, super_key: false }
    } else if crate::scan::chars_eq(&cs, &shift) {
        ModKeys { ctrl: false, alt: false, shift: true, super_key: false }
    } else if crate::scan::chars_eq(&cs, &sup) {
        ModKeys { ctrl: false, alt: false, shift: false, super_key: true }
    } else {
        ModKeys::empty()
    }
}

/// The ASCII-lowercase counterpart of a character.
pub open spec fn lower_char(c: char) -> char {
    if 'A' <= c && c <= 'Z' {
        spec_lower_table(c)
    } else {
        c
    }
}

pub open spec fn spec_lower_table(c: char) -> char {
    if c == 'A' { 'a' } else if c == 'B' { 'b' } else if c == 'C' { 'c' }
    else if c == 'D' { 'd' } else if c == 'E' { 'e' } else if c == 'F' { 'f' }
    else if c == 'G' { 'g' } else if c == 'H' { 'h' } else if c == 'I' { 'i' }
    else if c == 'J' { 'j' } else if c == 'K' { 'k' } else if c == 'L' { 'l' }
    else if c == 'M' { 'm' } else if c == 'N' { 'n' } else if c == 'O' { 'o' }
    else if c == 'P' { 'p' } else if c == 'Q' { 'q' } else if c == 'R' { 'r' }
    else if c == 'S' { 's' } else if c == 'T' { 't' } else if c == 'U' { 'u' }
    else if c == 'V' { 'v' } else if c == 'W' { 'w' } else if c == 'X' { 'x' }
    else if c == 'Y' { 'y' } else if c == 'Z' { 'z' } else { c }
}

/// The ASCII-uppercase counterpart of a lowercase letter.
pub open spec fn upper_char(c: char) -> char {
    if c == 'a' { 'A' } else if c == 'b' { 'B' } else if c == 'c' { 'C' }
    else if c == 'd' { 'D' } else if c == 'e' { 'E' } else if c == 'f' { 'F' }
    else if c == 'g' { 'G' } else if c == 'h' { 'H' } else if c == 'i' { 'I' }
    else if c == 'j' { 'J' } else if c == 'k' { 'K' } else if c == 'l' { 'L' }
    else if c == 'm' { 'M' } else if c == 'n' { 'N' } else if c == 'o' { 'O' }
    else if c == 'p' { 'P' } else if c == 'q' { 'Q' } else if c == 'r' { 'R' }
    else if c == 's' { 'S' } else if c == 't' { 'T' } else if c == 'u' { 'U' }
    else if c == 'v' { 'V' } else if c == 'w' { 'W' } else if c == 'x' { 'X' }
    else if c == 'y' { 'Y' } else if c == 'z' { 'Z' } else { c }
}

fn exec_lower_char(c: char) -> (r: char)
    ensures
        r == lower_char(c),
{
    if c == 'A' { 'a' } else if c == 'B' { 'b' } else if c == 'C' { 'c' }
    else if c == 'D' { 'd' } else if c == 'E' { 'e' } else if c == 'F' { 'f' }
    else if c == 'G' { 'g' } else if c == 'H' { 'h' } else if c == 'I' { 'i' }
    else if c == 'J' { 'j' } else if c == 'K' { 'k' } else if c == 'L' { 'l' }
    else if c == 'M' { 'm' } else if c == 'N' { 'n' } else if c == 'O' { 'o' }
    else if c == 'P' { 'p' } else if c == 'Q' { 'q' } else if c == 'R' { 'r' }
    else if c == 'S' { 's' } else if c == 'T' { 't' } else if c == 'U' { 'u' }
    else if c == 'V' { 'v' } else if c == 'W' { 'w' } else if c == 'X' { 'x' }
    else if c == 'Y' { 'y' } else if c == 'Z' { 'z' } else { c }
}

fn exec_upper_char(c: char) -> (r: char)
    ensures
        r == upper_char(c),
{
    if c == 'a' { 'A' } else if c == 'b' { 'B' } else if c == 'c' { 'C' }
    else if c == 'd' { 'D' } else if c == 'e' { 'E' } else if c == 'f' { 'F' }
    else if c == 'g' { 'G' } else if c == 'h' { 'H' } else if c == 'i' { 'I' }
    else if c == 'j' { 'J' } else if c == 'k' { 'K' } else if c == 'l' { 'L' }
    else if c == 'm' { 'M' } else if c == 'n' { 'N' } else if c == 'o' { 'O' }
    else if c == 'p' { 'P' } else if c == 'q' { 'Q' } else if c == 'r' { 'R' }
    else if c == 's' { 'S' } else if c == 't' { 'T' } else if c == 'u' { 'U' }
    else if c == 'v' { 'V' } else if c == 'w' { 'W' } else if c == 'x' { 'X' }
    else if c == 'y' { 'Y' } else if c == 'z' { 'Z' } else { c }
}

/// `s` with every ASCII uppercase letter lowered.
pub open spec fn lower_seq(s: Seq<char>) -> Seq<char> {
    s.map_values(|c: char| lower_char(c))
}

fn lower_chars(v: &Vec<char>) -> (r: Vec<char>)
    ensures
        r@ == lower_seq(v@),
{
    let mut r: Vec<char> = Vec::new();
    let mut k: usize = 0;
    while k < v.len()
        invariant
            k <= v@.len(),
            r@ == lower_seq(v@.take(k as int)),
        decreases v@.len() - k,
    {
        r.push(exec_lower_char(v[k]));
        k = k + 1;
        proof {
            assert(lower_seq(v@.take(k as int)) =~= lower_seq(v@.take(k - 1)).push(
                lower_char(v@[k - 1]),
            ));
        }
    }
    proof {
        assert(v@.take(v@.len() as int) =~= v@);
    }
    r
}

/// What `Code::from_str` of the platform key-code table returns for a
/// token: the canonical name it recognizes, or nothing.  The result is a
/// function of the token alone.
pub uninterp spec fn os_key_name(s: Seq<char>) -> Option<Seq<char>>;

/// Relies on `global_hotkey::hotkey::Code` (the platform key-code table):
/// `from_str` recognizes a token, or not, by its characters alone, and
/// `Display` writes the recognized code's name back out.
#[verifier::external_body]
fn os_key_code(token: &str) -> (r: Option<String>)
    ensures
        match r {
            Some(name) => os_key_name(token@) == Some(name@),
            None => os_key_name(token@) is None,
        },
{
    match global_hotkey::hotkey::Code::from_str(token) {
        Ok(code) => Some(code.to_string()),
        Err(_) => None,
    }
}

/// A canonical key-code name (`KeyA`, `Escape`, `Digit1`, ...).
#[derive(Debug, Clone, PartialEq, Eq, Hash)]
pub struct KeyCode {
    pub name: String,
}

impl View for KeyCode {
    type V = Seq<char>;

    open spec fn view(&self) -> Seq<char> {
        self.name@
    }
}

/// The canonical key-code name of a trigger token: letters, digits and
/// `escape` resolve through the table (case-insensitively), anything else
/// passes through the platform key-code names or is unknown.
pub open spec fn spec_key_code(s: Seq<char>) -> Option<Seq<char>> {
    let l = lower_seq(s);
    if l.len() == 1 && 'a' <= l[0] && l[0] <= 'z' {
        Some(seq!['K', 'e', 'y', upper_char(l[0])])
    } else if l.len() == 1 && '0' <= l[0] && l[0] <= '9' {
        Some(seq!['D', 'i', 'g', 'i', 't', l[0]])
    } else if l == seq!['e', 's', 'c', 'a', 'p', 'e'] {
        Some(seq!['E', 's', 'c', 'a', 'p', 'e'])
    } else {
        os_key_name(s)
    }
}

/// Resolves a trigger token to its canonical key-code name.
pub fn key_code_from_string(key: &str) -> (r: Option<KeyCode>)
    ensures
        match r {
            Some(k) => spec_key_code(key@) == Some(k@),
            None => spec_key_code(key@) is None,
        },
{
    let cs = chars_of(key);
    let l = lower_chars(&cs);
    if l.len() == 1 && 'a' <= l[0] && l[0] <= 'z' {
        let name: Vec<char> = vec!['K', 'e', 'y', exec_upper_char(l[0])];
        Some(KeyCode { name: string_of(&name) })
    } else if l.len() == 1 && '0' <= l[0] && l[0] <= '9' {
        let name: Vec<char> = vec!['D', 'i', 'g', 'i', 't', l[0]];
        Some(KeyCode { name: string_of(&name) })
    } else {
        let escape: Vec<char> = vec!['e', 's', 'c', 'a', 'p', 'e'];
        if crate::scan::chars_eq(&l, &escape) {
            let name: Vec<char> = vec!['E', 's', 'c', 'a', 'p', 'e'];
            Some(KeyCode { name: string_of(&name) })
        } else {
            match os_key_code(key) {
                Some(name) => Some(KeyCode { name }),
                None => None,
            }
        }
    }
}

/// A normalized hotkey descriptor: the canonical identity of a hotkey
/// within a mode (modifier set + key code) together with its payload.
#[derive(Debug, Clone, PartialEq, Eq, Hash)]
pub struct HkmData {
    pub mode: Option<String>,
    pub mod_keys: Option<ModKeys>,
    pub vkey: KeyCode,
    pub command: Option<String>,
    pub internal_action: Option<Option<String>>,
    pub process_name: Option<String>,
}

/// The mathematical value of an `HkmData`.
#[verifier::ext_equal]
pub ghost struct DescModel {
    pub mode: Option<Seq<char>>,
    pub mod_keys: Option<ModKeys>,
    pub vkey: Seq<char>,
    pub command: Option<Seq<char>>,
    pub internal_action: Option<Option<Seq<char>>>,
    pub process_name: Option<Seq<char>>,
}

impl View for HkmData {
    type V = DescModel;

    open spec fn view(&self) -> DescModel {
        DescModel {
            mode: self.mode.deep_view(),
            mod_keys: self.mod_keys,
            vkey: self.vkey@,
            command: self.command.deep_view(),
            internal_action: self.internal_action.deep_view(),
            process_name: self.process_name.deep_view(),
        }
    }
}

impl DeepView for HkmData {
    type V = DescModel;

    open spec fn deep_view(&self) -> DescModel {
        self@
    }
}

/// Why a binding could not be normalized.
#[derive(Debug, Clone, PartialEq, Eq)]
pub enum NormalizeError {
    /// The trigger key token names no known key; holds the token.
    UnknownKey(String),
}

/// The union of the modifier sets named by the given tokens.
pub open spec fn spec_mods(keys: Seq<Seq<char>>) -> ModKeys
    decreases keys.len(),
{
    if keys.len() == 0 {
        ModKeys::spec_empty()
    } else {
        spec_mods(keys.drop_last()).spec_union(spec_modifier(keys.last()))
    }
}

/// A nonempty modifier set, or nothing.
pub open spec fn mods_opt(m: ModKeys) -> Option<ModKeys> {
    if m == ModKeys::spec_empty() {
        None
    } else {
        Some(m)
    }
}

/// The canonical descriptor of a parsed binding: the last key token is the
/// trigger, the tokens before it are modifiers; unknown triggers normalize
/// to nothing.
pub open spec fn normalized(b: BindingModel) -> Option<DescModel>
    recommends
        b.keys.len() >= 1,
{
    match spec_key_code(b.keys.last()) {
        None => None,
        Some(name) => Some(
            DescModel {
                mode: b.mode,
                mod_keys: mods_opt(spec_mods(b.keys.drop_last())),
                vkey: name,
                command: b.command,
                internal_action: b.internal_action,
                process_name: b.process_name,
            },
        ),
    }
}

fn clone_opt_string(o: &Option<String>) -> (r: Option<String>)
    ensures
        r.deep_view() == o.deep_view(),
{
    match o {
        Some(s) => Some(s.clone()),
        None => None,
    }
}

fn clone_opt_opt_string(o: &Option<Option<String>>) -> (r: Option<Option<String>>)
    ensures
        r.deep_view() == o.deep_view(),
{
    match o {
        Some(Some(s)) => Some(Some(s.clone())),
        Some(None) => Some(None),
        None => None,
    }
}

impl HkmData {
    /// Normalizes one parsed binding: resolves the trigger (last key token)
    /// through the key-name table and folds the remaining tokens into the
    /// modifier set; fails exactly when the trigger names no known key.
    pub fn try_from(value: &HotkeyBinding) -> (r: Result<HkmData, NormalizeError>)
        requires
            value@.keys.len() >= 1,
        ensures
            match r {
                Ok(d) => normalized(value@) == Some(d@),
                Err(e) => {
                    &&& normalized(value@) is None
                    &&& (e matches NormalizeError::UnknownKey(t) && t@ == value@.keys.last())
                },
            },
    {
        let n = value.keys.len();
        let trigger = &value.keys[n - 1];
        let mut mods = ModKeys::empty();
        let mut k: usize = 0;
        while k < n - 1
            invariant
                n == value.keys@.len() >= 1,
                k <= n - 1,
                mods == spec_mods(value@.keys.take(k as int)),
            decreases n - 1 - k,
        {
            mods = mods.union(modifier_from_string(value.keys[k].as_str()));
            k = k + 1;
            proof {
                assert(value@.keys.take(k as int).drop_last() =~= value@.keys.take(k - 1));
                assert(value@.keys.take(k as int).last() == value@.keys[k - 1]);
            }
        }
        proof {
            assert(value@.keys.take(n - 1 as int) =~= value@.keys.drop_last());
        }
        match key_code_from_string(trigger.as_str()) {
            None => Err(NormalizeError::UnknownKey(trigger.clone())),
            Some(vkey) => {
                let mod_keys = if mods.is_empty() {
                    None
                } else {
                    Some(mods)
                };
                Ok(
                    HkmData {
                        mode: clone_opt_string(&value.mode),
                        mod_keys,
                        vkey,
                        command: clone_opt_string(&value.command),
                        internal_action: clone_opt_opt_string(&value.internal_action),
                        process_name: clone_opt_string(&value.process_name),
                    },
                )
            },
        }
    }
}

} // verus!
