//! Telling a JSON plan from a binary planfile.

use vstd::prelude::*;

verus! {

/// The bytes that `u8::is_ascii_whitespace` accepts: space, tab, line feed,
/// form feed and carriage return.
pub open spec fn is_ascii_ws(b: u8) -> bool {
    b == 0x20 || b == 0x09 || b == 0x0a || b == 0x0c || b == 0x0d
}

/// The first byte that is not ASCII whitespace is `{`.
pub open spec fn starts_like_json(content: Seq<u8>) -> bool {
    exists|i: int|
        0 <= i < content.len() && content[i] == 0x7b && forall|j: int|
            0 <= j < i ==> is_ascii_ws(#[trigger] content[j])
}

/// Whether a plan file's content looks like JSON (starts with '{' after
/// whitespace) rather than a binary planfile.
pub fn looks_like_json(content: &[u8]) -> (r: bool)
    ensures
        r == starts_like_json(content@),
{
    let n = content.len();
    for i in 0..n
        invariant
            n == content@.len(),
            forall|j: int| 0 <= j < i ==> is_ascii_ws(#[trigger] content@[j]),
    {
        let b = content[i];
        if !(b == 0x20 || b == 0x09 || b == 0x0a || b == 0x0c || b == 0x0d) {
            if b == 0x7b {
                return true;
            }
            assert(!starts_like_json(content@)) by {
                if starts_like_json(content@) {
                    let k = choose|k: int|
                        0 <= k < content@.len() && content@[k] == 0x7b && forall|j: int|
                            0 <= j < k ==> is_ascii_ws(#[trigger] content@[j]);
                    if k > i {
                        assert(is_ascii_ws(content@[i as int]));
                    }
                }
            }
            return false;
        }
    }
    false
}

/// A plan file looks like JSON when, once leading ASCII whitespace is
/// skipped, its first byte is `{`: empty content does not, content that
/// starts with `{` does, content that starts with another byte that is not
/// whitespace does not, and a leading whitespace byte changes nothing.
pub proof fn law_json_detection(content: Seq<u8>)
    ensures
        content.len() == 0 ==> !starts_like_json(content),
        content.len() > 0 && content[0] == 0x7b ==> starts_like_json(content),
        content.len() > 0 && content[0] != 0x7b && !is_ascii_ws(content[0]) ==> !starts_like_json(
            content,
        ),
        content.len() > 0 && is_ascii_ws(content[0]) ==> (starts_like_json(content)
            <==> starts_like_json(content.drop_first())),
{
    if content.len() > 0 && content[0] == 0x7b {
        assert(forall|j: int| 0 <= j < 0 ==> is_ascii_ws(#[trigger] content[j]));
    }
    if content.len() > 0 && is_ascii_ws(content[0]) {
        let rest = content.drop_first();
        if starts_like_json(content) {
            let i = choose|i: int|
                0 <= i < content.len() && content[i] == 0x7b && forall|j: int|
                    0 <= j < i ==> is_ascii_ws(#[trigger] content[j]);
            assert(i > 0);
            assert(rest[i - 1] == 0x7b);
            assert forall|j: int| 0 <= j < i - 1 implies is_ascii_ws(#[trigger] rest[j]) by {
                assert(rest[j] == content[j + 1]);
            }
        }
        if starts_like_json(rest) {
            let i = choose|i: int|
                0 <= i < rest.len() && rest[i] == 0x7b && forall|j: int|
                    0 <= j < i ==> is_ascii_ws(#[trigger] rest[j]);
            assert(content[i + 1] == 0x7b);
            assert forall|j: int| 0 <= j < i + 1 implies is_ascii_ws(#[trigger] content[j]) by {
                if j > 0 {
                    assert(content[j] == rest[j - 1]);
                }
            }
        }
    }
    if content.len() > 0 && content[0] != 0x7b && !is_ascii_ws(content[0]) {
        if starts_like_json(content) {
            let i = choose|i: int|
                0 <= i < content.len() && content[i] == 0x7b && forall|j: int|
                    0 <= j < i ==> is_ascii_ws(#[trigger] content[j]);
            if i > 0 {
                assert(is_ascii_ws(content[0]));
            }
        }
    }
}

} // verus!
