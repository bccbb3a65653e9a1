//! Where a vault is kept: the name of its file, made from its identifier.

use vstd::prelude::*;

use crate::text::chars_of;
use crate::trusted::{ascii_chars, item_views};
use vstd::string::StringExecFns;

verus! {

/// The most characters that the name of a file has before its extension, so
/// that the whole name has 255 bytes at most.
pub const MAX_STEM: usize = 249;

/// The extension of a vault's file.
pub open spec fn extension() -> Seq<char> {
    seq!['.', 'v', 'a', 'u', 'l', 't']
}

/// The items one after the other, those that hold nothing left out.
pub open spec fn flattened(items: Seq<Option<Seq<char>>>) -> Seq<char>
    decreases items.len(),
{
    if items.len() == 0 {
        Seq::empty()
    } else {
        flattened(items.drop_last()) + match items.last() {
            Some(chars) => chars,
            None => Seq::empty(),
        }
    }
}

/// Whether the character is an ASCII letter or digit.
pub open spec fn is_alphanumeric(c: char) -> bool {
    ('a' <= c && c <= 'z') || ('A' <= c && c <= 'Z') || ('0' <= c && c <= '9')
}

/// The character in lower case, if it is an ASCII letter in upper case; else
/// the character.
pub open spec fn lower(c: char) -> char {
    if 'A' <= c && c <= 'Z' {
        ((c as u8) + 32) as char
    } else {
        c
    }
}

/// What becomes of a character in the name of a file: `.`, `_` and `-` stay,
/// ASCII letters and digits stay, the letters in lower case, a space becomes
/// `_`, and every other character is dropped. So the name of a file is ASCII,
/// and has as many bytes as characters.
pub open spec fn normal(c: char) -> Option<char> {
    if c == '.' || c == '_' || c == '-' {
        Some(c)
    } else if is_alphanumeric(c) {
        Some(lower(c))
    } else if c == ' ' {
        Some('_')
    } else {
        None
    }
}

/// The text, each character as `normal` has it.
pub open spec fn normalized(text: Seq<char>) -> Seq<char>
    decreases text.len(),
{
    if text.len() == 0 {
        Seq::empty()
    } else {
        normalized(text.drop_last()) + match normal(text.last()) {
            Some(c) => seq![c],
            None => Seq::empty(),
        }
    }
}

/// The first `MAX_STEM` characters of the text, or all of it if it has no more.
pub open spec fn capped(text: Seq<char>) -> Seq<char> {
    if text.len() > MAX_STEM {
        text.take(MAX_STEM as int)
    } else {
        text
    }
}

/// The name of the file of a vault, made from what its identifier is in
/// ASCII: the items one after the other, normalized, cut to `MAX_STEM`
/// characters, and the extension.
pub open spec fn file_name(items: Seq<Option<Seq<char>>>) -> Seq<char> {
    capped(normalized(flattened(items))) + extension()
}

/// A file's name after a folder's. A `/` stands between them, unless the
/// folder is empty or ends in one.
pub open spec fn joined(folder: Seq<char>, name: Seq<char>) -> Seq<char> {
    if folder.len() == 0 || folder.last() == '/' {
        folder + name
    } else {
        folder + seq!['/'] + name
    }
}

/// The path of the file of the vault with this identifier in this folder.
pub open spec fn vault_path(folder: Seq<char>, identifier: Seq<char>) -> Seq<char> {
    joined(folder, file_name(ascii_chars(identifier)))
}

/// Whether every character is one that may stand in the name of a file: `.`,
/// `_`, `-`, a digit or a lower-case ASCII letter.
pub open spec fn portable(text: Seq<char>) -> bool {
    forall|i: int|
        0 <= i < text.len() ==> {
            let c = #[trigger] text[i];
            c == '.' || c == '_' || c == '-' || ('a' <= c && c <= 'z') || ('0' <= c && c <= '9')
        }
}

/// What becomes of a character in the name of a file.
pub fn normalize(c: char) -> (r: Option<char>)
    ensures
        r == normal(c),
{
    if c == '.' || c == '_' || c == '-' {
        Some(c)
    } else if 'A' <= c && c <= 'Z' {
        Some(((c as u8) + 32) as char)
    } else if ('a' <= c && c <= 'z') || ('0' <= c && c <= '9') {
        Some(c)
    } else if c == ' ' {
        Some('_')
    } else {
        None
    }
}

/// A normalized text is portable.
pub proof fn lemma_normalized_portable(text: Seq<char>)
    ensures
        portable(normalized(text)),
        normalized(text).len() <= text.len(),
    decreases text.len(),
{
    if text.len() > 0 {
        lemma_normalized_portable(text.drop_last());
    }
}

/// The name of the file of a vault, made from what its identifier is in ASCII.
pub fn file_name_of(items: &Vec<Option<Vec<char>>>) -> (name: String)
    ensures
        name@ == file_name(item_views(items@)),
        name@.len() <= MAX_STEM + 6,
        portable(name@),
{
    let ghost views = item_views(items@);
    let mut name = String::new();
    let mut kept: usize = 0;
    let mut i: usize = 0;
    assert(views.take(0) =~= Seq::<Option<Seq<char>>>::empty());
    while i < items.len()
        invariant
            i <= items.len(),
            views == item_views(items@),
            name@ == capped(normalized(flattened(views.take(i as int)))),
            kept == name@.len(),
        decreases items.len() - i,
    {
        let ghost before = flattened(views.take(i as int));
        proof {
            assert(views.take(i + 1).drop_last() =~= views.take(i as int));
            assert(views.take(i + 1).last() == views[i as int]);
        }
        match &items[i] {
            Some(chars) => {
                let mut j: usize = 0;
                assert(before + chars@.take(0) =~= before);
                while j < chars.len()
                    invariant
                        j <= chars.len(),
                        name@ == capped(normalized(before + chars@.take(j as int))),
                        kept == name@.len(),
                    decreases chars.len() - j,
                {
                    let ghost text = before + chars@.take(j as int);
                    proof {
                        assert(before + chars@.take(j + 1) =~= text.push(chars@[j as int]));
                        assert(text.push(chars@[j as int]).drop_last() =~= text);
                    }
                    if kept < MAX_STEM {
                        match normalize(chars[j]) {
                            Some(c) => {
                                name.push(c);
                                kept += 1;
                            },
                            None => {},
                        }
                    }
                    j += 1;
                    assert(name@ =~= capped(normalized(before + chars@.take(j as int))));
                }
                assert(chars@.take(chars.len() as int) =~= chars@);
            },
            None => {
                assert(before + Seq::<char>::empty() =~= before);
            },
        }
        i += 1;
    }
    assert(views.take(items.len() as int) =~= views);
    proof {
        lemma_normalized_portable(flattened(views));
        reveal_strlit(".vault");
        assert(".vault"@ =~= extension());
    }
    name.append(".vault");
    name
}

/// A file's name after a folder's.
pub fn join(folder: &str, name: &str) -> (path: String)
    ensures
        path@ == joined(folder@, name@),
{
    let chars = chars_of(folder);
    let mut path = folder.to_owned();
    if chars.len() > 0 && chars[chars.len() - 1] != '/' {
        proof {
            reveal_strlit("/");
            assert("/"@ =~= seq!['/']);
        }
        path.append("/");
    }
    path.append(name);
    path
}

} // verus!
