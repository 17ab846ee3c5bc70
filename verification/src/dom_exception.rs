//! DOMException: an error name with a message, and the legacy code of the
//! names that have one.
use vstd::prelude::*;
use crate::text::str_eq;

verus! {

/// A DOMException value.
#[derive(Clone, Debug)]
pub struct DOMException {
    message: String,
    name: String,
}

/// The legacy code of an error name, per the error names table of Web IDL;
/// zero for a name without one.
pub open spec fn code_of(name: Seq<char>) -> u16 {
    if name == "IndexSizeError"@ {
        1
    } else if name == "HierarchyRequestError"@ {
        3
    } else if name == "WrongDocumentError"@ {
        4
    } else if name == "InvalidCharacterError"@ {
        5
    } else if name == "NoModificationAllowedError"@ {
        7
    } else if name == "NotFoundError"@ {
        8
    } else if name == "NotSupportedError"@ {
        9
    } else if name == "InUseAttributeError"@ {
        10
    } else if name == "InvalidStateError"@ {
        11
    } else if name == "SyntaxError"@ {
        12
    } else if name == "InvalidModificationError"@ {
        13
    } else if name == "NamespaceError"@ {
        14
    } else if name == "InvalidAccessError"@ {
        15
    } else if name == "TypeMismatchError"@ {
        17
    } else if name == "SecurityError"@ {
        18
    } else if name == "NetworkError"@ {
        19
    } else if name == "AbortError"@ {
        20
    } else if name == "URLMismatchError"@ {
        21
    } else if name == "QuotaExceededError"@ {
        22
    } else if name == "TimeoutError"@ {
        23
    } else if name == "InvalidNodeTypeError"@ {
        24
    } else if name == "DataCloneError"@ {
        25
    } else {
        0
    }
}

impl DOMException {
    pub closed spec fn message(&self) -> Seq<char> {
        self.message@
    }

    pub closed spec fn name(&self) -> Seq<char> {
        self.name@
    }

    /// An exception with the given message and name.
    pub fn new(message: String, name: String) -> (e: Self)
        ensures
            e.message() == message@,
            e.name() == name@,
    {
        DOMException { message, name }
    }

    pub fn abort_error() -> (e: Self)
        ensures
            e.message() == Seq::<char>::empty(),
            e.name() == "AbortError"@,
    {
        Self::new(String::new(), String::from_str("AbortError"))
    }

    pub fn timeout_error() -> (e: Self)
        ensures
            e.message() == Seq::<char>::empty(),
            e.name() == "TimeoutError"@,
    {
        Self::new(String::new(), String::from_str("TimeoutError"))
    }

    pub fn hierarchy_request_error() -> (e: Self)
        ensures
            e.message() == Seq::<char>::empty(),
            e.name() == "HierarchyRequestError"@,
    {
        Self::new(String::new(), String::from_str("HierarchyRequestError"))
    }

    pub fn not_found_error() -> (e: Self)
        ensures
            e.message() == Seq::<char>::empty(),
            e.name() == "NotFoundError"@,
    {
        Self::new(String::new(), String::from_str("NotFoundError"))
    }

    pub fn not_supported_error() -> (e: Self)
        ensures
            e.message() == Seq::<char>::empty(),
            e.name() == "NotSupportedError"@,
    {
        Self::new(String::new(), String::from_str("NotSupportedError"))
    }

    pub fn syntax_error() -> (e: Self)
        ensures
            e.message() == Seq::<char>::empty(),
            e.name() == "SyntaxError"@,
    {
        Self::new(String::new(), String::from_str("SyntaxError"))
    }

    pub fn security_error() -> (e: Self)
        ensures
            e.message() == Seq::<char>::empty(),
            e.name() == "SecurityError"@,
    {
        Self::new(String::new(), String::from_str("SecurityError"))
    }

    /// The message attribute.
    pub fn message_value(&self) -> (m: &str)
        ensures
            m@ == self.message(),
    {
        self.message.as_str()
    }

    /// The name attribute.
    pub fn name_value(&self) -> (n: &str)
        ensures
            n@ == self.name(),
    {
        self.name.as_str()
    }

    /// The code attribute: the legacy code of the name.
    pub fn code_value(&self) -> (c: u16)
        ensures
            c == code_of(self.name()),
    {
        let n = self.name.as_str();
        if str_eq(n, "IndexSizeError") {
            1
        } else if str_eq(n, "HierarchyRequestError") {
            3
        } else if str_eq(n, "WrongDocumentError") {
            4
        } else if str_eq(n, "InvalidCharacterError") {
            5
        } else if str_eq(n, "NoModificationAllowedError") {
            7
        } else if str_eq(n, "NotFoundError") {
            8
        } else if str_eq(n, "NotSupportedError") {
            9
        } else if str_eq(n, "InUseAttributeError") {
            10
        } else if str_eq(n, "InvalidStateError") {
            11
        } else if str_eq(n, "SyntaxError") {
            12
        } else if str_eq(n, "InvalidModificationError") {
            13
        } else if str_eq(n, "NamespaceError") {
            14
        } else if str_eq(n, "InvalidAccessError") {
            15
        } else if str_eq(n, "TypeMismatchError") {
            17
        } else if str_eq(n, "SecurityError") {
            18
        } else if str_eq(n, "NetworkError") {
            19
        } else if str_eq(n, "AbortError") {
            20
        } else if str_eq(n, "URLMismatchError") {
            21
        } else if str_eq(n, "QuotaExceededError") {
            22
        } else if str_eq(n, "TimeoutError") {
            23
        } else if str_eq(n, "InvalidNodeTypeError") {
            24
        } else if str_eq(n, "DataCloneError") {
            25
        } else {
            0
        }
    }
}

/// Each named constructor gives an exception whose code is the legacy code
/// of its name.
pub proof fn law_constructor_codes()
    ensures
        code_of("AbortError"@) == 20,
        code_of("TimeoutError"@) == 23,
        code_of("HierarchyRequestError"@) == 3,
        code_of("NotFoundError"@) == 8,
        code_of("NotSupportedError"@) == 9,
        code_of("SyntaxError"@) == 12,
        code_of("SecurityError"@) == 18,
{
    reveal_strlit("IndexSizeError");
    reveal_strlit("HierarchyRequestError");
    reveal_strlit("WrongDocumentError");
    reveal_strlit("InvalidCharacterError");
    reveal_strlit("NoModificationAllowedError");
    reveal_strlit("NotFoundError");
    reveal_strlit("NotSupportedError");
    reveal_strlit("InUseAttributeError");
    reveal_strlit("InvalidStateError");
    reveal_strlit("SyntaxError");
    reveal_strlit("InvalidModificationError");
    reveal_strlit("NamespaceError");
    reveal_strlit("InvalidAccessError");
    reveal_strlit("TypeMismatchError");
    reveal_strlit("SecurityError");
    reveal_strlit("NetworkError");
    reveal_strlit("AbortError");
    reveal_strlit("URLMismatchError");
    reveal_strlit("QuotaExceededError");
    reveal_strlit("TimeoutError");
    reveal_strlit("InvalidNodeTypeError");
    reveal_strlit("DataCloneError");
    assert("IndexSizeError"@.len() == 14);
    assert("HierarchyRequestError"@.len() == 21);
    assert("WrongDocumentError"@.len() == 18);
    assert("InvalidCharacterError"@.len() == 21);
    assert("NoModificationAllowedError"@.len() == 26);
    assert("NotFoundError"@.len() == 13);
    assert("NotSupportedError"@.len() == 17);
    assert("InUseAttributeError"@.len() == 19);
    assert("InvalidStateError"@.len() == 17);
    assert("SyntaxError"@.len() == 11);
    assert("InvalidModificationError"@.len() == 24);
    assert("NamespaceError"@.len() == 14);
    assert("InvalidAccessError"@.len() == 18);
    assert("TypeMismatchError"@.len() == 17);
    assert("SecurityError"@.len() == 13);
    assert("NetworkError"@.len() == 12);
    assert("AbortError"@.len() == 10);
    assert("URLMismatchError"@.len() == 16);
    assert("QuotaExceededError"@.len() == 18);
    assert("TimeoutError"@.len() == 12);
    assert("InvalidNodeTypeError"@.len() == 20);
    assert("DataCloneError"@.len() == 14);
    assert("TimeoutError"@[0] != "NetworkError"@[0]);
    assert("SecurityError"@[0] != "NotFoundError"@[0]);
    assert("HierarchyRequestError"@[0] != "InvalidCharacterError"@[0]);
}

} // verus!
