//! The standard key bindings of the Apple text system: the editing command
//! a pressed key with modifiers stands for.
use vstd::prelude::*;

verus! {

/// The keys the bindings distinguish.
#[derive(Clone, PartialEq, Eq, Debug)]
pub enum Key {
    Backspace,
    Delete,
    ArrowLeft,
    ArrowRight,
    ArrowUp,
    ArrowDown,
    /// A key that produces text.
    Character(String),
    /// Any other key.
    Other,
}

/// The modifier keys held.
#[derive(Clone, Copy, PartialEq, Eq, Structural, Debug)]
pub struct Modifiers {
    /// The command key.
    pub command: bool,
    pub control: bool,
    /// The option key.
    pub option: bool,
    pub shift: bool,
}

/// A keyboard event as the bindings read it.
#[derive(Clone, Debug)]
pub struct KeyEvent {
    pub key: Key,
    pub modifiers: Modifiers,
    pub pressed: bool,
}

/// What `str::to_lowercase` makes of a string.
pub uninterp spec fn lowercase_of(s: Seq<char>) -> Seq<char>;

/// Calls `str::to_lowercase`.
#[verifier::external_body]
fn to_lowercase(s: &str) -> (r: String)
    ensures
        r@ == lowercase_of(s@),
{
    s.to_lowercase()
}

/// The command bound to control with a character key, given the key's
/// text already lowercased.
pub open spec fn control_binding_spec(lowered: Seq<char>, shift: bool) -> Option<&'static str> {
    if lowered == seq!['a'] {
        Some(if shift { "moveToBeginningOfParagraphAndModifySelection:" } else { "moveToBeginningOfParagraph:" })
    } else if lowered == seq!['b'] {
        Some(if shift { "moveBackwardAndModifySelection:" } else { "moveBackward:" })
    } else if lowered == seq!['d'] {
        Some("deleteForward:")
    } else if lowered == seq!['e'] {
        Some(if shift { "moveToEndOfParagraphAndModifySelection:" } else { "moveToEndOfParagraph:" })
    } else if lowered == seq!['f'] {
        Some(if shift { "moveForwardAndModifySelection:" } else { "moveForward:" })
    } else if lowered == seq!['h'] {
        Some("deleteBackward:")
    } else if lowered == seq!['k'] {
        Some("deleteToEndOfParagraph:")
    } else if lowered == seq!['n'] {
        Some(if shift { "moveDownAndModifySelection:" } else { "moveDown:" })
    } else if lowered == seq!['o'] {
        Some("insertNewlineIgnoringFieldEditor:")
    } else if lowered == seq!['p'] {
        Some(if shift { "moveUpAndModifySelection:" } else { "moveUp:" })
    } else {
        None
    }
}

/// The command bound to control with a character key, from the key's text
/// lowercased.
pub fn control_character_binding(lowered: &str, shift: bool) -> (r: Option<&'static str>)
    ensures
        r == control_binding_spec(lowered@, shift),
{
    let s = crate::text::chars_of(lowered);
    if s.len() != 1 {
        return None;
    }
    let c = s[0];
    assert(lowered@ =~= seq![c]);
    if c == 'a' {
        Some(if shift { "moveToBeginningOfParagraphAndModifySelection:" } else { "moveToBeginningOfParagraph:" })
    } else if c == 'b' {
        Some(if shift { "moveBackwardAndModifySelection:" } else { "moveBackward:" })
    } else if c == 'd' {
        Some("deleteForward:")
    } else if c == 'e' {
        Some(if shift { "moveToEndOfParagraphAndModifySelection:" } else { "moveToEndOfParagraph:" })
    } else if c == 'f' {
        Some(if shift { "moveForwardAndModifySelection:" } else { "moveForward:" })
    } else if c == 'h' {
        Some("deleteBackward:")
    } else if c == 'k' {
        Some("deleteToEndOfParagraph:")
    } else if c == 'n' {
        Some(if shift { "moveDownAndModifySelection:" } else { "moveDown:" })
    } else if c == 'o' {
        Some("insertNewlineIgnoringFieldEditor:")
    } else if c == 'p' {
        Some(if shift { "moveUpAndModifySelection:" } else { "moveUp:" })
    } else {
        None
    }
}

/// The command bound to the command key with a key.
pub open spec fn command_binding_spec(key: Key, shift: bool) -> Option<&'static str> {
    match key {
        Key::Backspace => Some("deleteToBeginningOfLine:"),
        Key::Delete => Some("deleteToEndOfLine:"),
        Key::ArrowLeft => Some(if shift { "moveToBeginningOfLineAndModifySelection:" } else { "moveToBeginningOfLine:" }),
        Key::ArrowRight => Some(if shift { "moveToEndOfLineAndModifySelection:" } else { "moveToEndOfLine:" }),
        Key::ArrowUp => Some(if shift { "moveToBeginningOfDocumentAndModifySelection:" } else { "moveToBeginningOfDocument:" }),
        Key::ArrowDown => Some(if shift { "moveToEndOfDocumentAndModifySelection:" } else { "moveToEndOfDocument:" }),
        _ => None,
    }
}

/// The command bound to the option key with a key.
pub open spec fn option_binding_spec(key: Key, shift: bool) -> Option<&'static str> {
    match key {
        Key::Backspace => Some("deleteWordBackward:"),
        Key::Delete => Some("deleteWordForward:"),
        Key::ArrowLeft => Some(if shift { "moveWordLeftAndModifySelection:" } else { "moveWordLeft:" }),
        Key::ArrowRight => Some(if shift { "moveWordRightAndModifySelection:" } else { "moveWordRight:" }),
        _ => None,
    }
}

/// The binding of a key-down event: command bindings first, then option
/// bindings, then control with a character, then a bare backspace.
pub open spec fn keybinding_spec(event: KeyEvent) -> Option<&'static str> {
    let m = event.modifiers;
    if !event.pressed {
        None
    } else if m.command && command_binding_spec(event.key, m.shift) is Some {
        command_binding_spec(event.key, m.shift)
    } else if m.option && option_binding_spec(event.key, m.shift) is Some {
        option_binding_spec(event.key, m.shift)
    } else if m.control && event.key is Character {
        control_binding_spec(lowercase_of(event.key->Character_0@), m.shift)
    } else if event.key == Key::Backspace {
        Some("deleteBackward:")
    } else {
        None
    }
}

fn command_binding(key: &Key, shift: bool) -> (r: Option<&'static str>)
    ensures
        r == command_binding_spec(*key, shift),
{
    match key {
        Key::Backspace => Some("deleteToBeginningOfLine:"),
        Key::Delete => Some("deleteToEndOfLine:"),
        Key::ArrowLeft => Some(if shift { "moveToBeginningOfLineAndModifySelection:" } else { "moveToBeginningOfLine:" }),
        Key::ArrowRight => Some(if shift { "moveToEndOfLineAndModifySelection:" } else { "moveToEndOfLine:" }),
        Key::ArrowUp => Some(if shift { "moveToBeginningOfDocumentAndModifySelection:" } else { "moveToBeginningOfDocument:" }),
        Key::ArrowDown => Some(if shift { "moveToEndOfDocumentAndModifySelection:" } else { "moveToEndOfDocument:" }),
        _ => None,
    }
}

fn option_binding(key: &Key, shift: bool) -> (r: Option<&'static str>)
    ensures
        r == option_binding_spec(*key, shift),
{
    match key {
        Key::Backspace => Some("deleteWordBackward:"),
        Key::Delete => Some("deleteWordForward:"),
        Key::ArrowLeft => Some(if shift { "moveWordLeftAndModifySelection:" } else { "moveWordLeft:" }),
        Key::ArrowRight => Some(if shift { "moveWordRightAndModifySelection:" } else { "moveWordRight:" }),
        _ => None,
    }
}

/// The editing command the Apple text system binds to a key-down event, if
/// any.
pub fn apple_standard_keybinding_for_key_down(event: &KeyEvent) -> (r: Option<&'static str>)
    ensures
        r == keybinding_spec(*event),
{
    if !event.pressed {
        return None;
    }
    let m = event.modifiers;
    if m.command {
        let c = command_binding(&event.key, m.shift);
        if c.is_some() {
            return c;
        }
    }
    if m.option {
        let o = option_binding(&event.key, m.shift);
        if o.is_some() {
            return o;
        }
    }
    if m.control {
        if let Key::Character(value) = &event.key {
            let lowered = to_lowercase(value.as_str());
            return control_character_binding(lowered.as_str(), m.shift);
        }
    }
    match &event.key {
        Key::Backspace => Some("deleteBackward:"),
        _ => None,
    }
}

/// The key binding command found while a key-down event was dispatched,
/// run once the dispatch is over, unless the key-down's default action was
/// prevented.
#[derive(Clone, Copy, Debug)]
pub struct DeferredAppleStandardKeybinding {
    pub command: Option<&'static str>,
    pub keydown_default_prevented: bool,
}

impl DeferredAppleStandardKeybinding {
    /// Nothing deferred.
    pub fn new() -> (d: Self)
        ensures
            d.command is None,
            !d.keydown_default_prevented,
    {
        DeferredAppleStandardKeybinding { command: None, keydown_default_prevented: false }
    }

    /// What a dispatched key-down event defers: its binding, if it has
    /// one, with whether listeners prevented its default action (the
    /// caller then prevents the default action itself).
    pub fn for_key_down(event: &KeyEvent, default_prevented: bool) -> (d: Option<Self>)
        ensures
            match keybinding_spec(*event) {
                Some(c) => d matches Some(x) && x.command == Some(c) && x.keydown_default_prevented
                    == default_prevented,
                None => d is None,
            },
    {
        match apple_standard_keybinding_for_key_down(event) {
            Some(c) => Some(
                DeferredAppleStandardKeybinding {
                    command: Some(c),
                    keydown_default_prevented: default_prevented,
                },
            ),
            None => None,
        }
    }

    /// The command to dispatch as an Apple standard key binding event once
    /// the key-down dispatch is over: the deferred one, unless the
    /// key-down's default action was prevented.
    pub fn command_to_dispatch(&self) -> (c: Option<&'static str>)
        ensures
            c == if self.keydown_default_prevented {
                None
            } else {
                self.command
            },
    {
        if self.keydown_default_prevented {
            None
        } else {
            self.command
        }
    }
}

} // verus!
