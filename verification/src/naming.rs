//! The names of files, scenes and container entries.

use crate::text::{lowercased, str_starts_with, to_lowercase};
use vstd::prelude::*;
use vstd::string::{StrSliceExecFns, StringExecFns};

verus! {

/// The decimal digit that stands for `d`.
pub open spec fn digit_char(d: nat) -> char {
    if d == 0 {
        '0'
    } else if d == 1 {
        '1'
    } else if d == 2 {
        '2'
    } else if d == 3 {
        '3'
    } else if d == 4 {
        '4'
    } else if d == 5 {
        '5'
    } else if d == 6 {
        '6'
    } else if d == 7 {
        '7'
    } else if d == 8 {
        '8'
    } else {
        '9'
    }
}

/// The value of a decimal digit, if the character is one.
pub open spec fn digit_value(c: char) -> Option<nat> {
    if c == '0' {
        Some(0)
    } else if c == '1' {
        Some(1)
    } else if c == '2' {
        Some(2)
    } else if c == '3' {
        Some(3)
    } else if c == '4' {
        Some(4)
    } else if c == '5' {
        Some(5)
    } else if c == '6' {
        Some(6)
    } else if c == '7' {
        Some(7)
    } else if c == '8' {
        Some(8)
    } else if c == '9' {
        Some(9)
    } else {
        None
    }
}

/// The decimal form of a number, without leading zeros.
pub open spec fn decimal(n: nat) -> Seq<char>
    decreases n,
{
    if n < 10 {
        seq![digit_char(n)]
    } else {
        decimal(n / 10).push(digit_char(n % 10))
    }
}

/// The number that the first `n` characters spell, if all are digits.
pub open spec fn digits_value(s: Seq<char>, n: int) -> Option<nat>
    decreases n,
{
    if n <= 0 {
        Some(0)
    } else {
        match digits_value(s, n - 1) {
            None => None,
            Some(before) => match digit_value(s[n - 1]) {
                None => None,
                Some(d) => Some(before * 10 + d),
            },
        }
    }
}

/// The number that a run of characters stands for: one or more decimal
/// digits with a value in the range of `usize`.
pub open spec fn parsed_digits(digits: Seq<char>) -> Option<usize> {
    if digits.len() == 0 {
        None
    } else {
        match digits_value(digits, digits.len() as int) {
            None => None,
            Some(v) => if v <= usize::MAX {
                Some(v as usize)
            } else {
                None
            },
        }
    }
}

/// The number that a text stands for: one or more decimal digits, which a
/// plus sign may precede, with a value in the range of `usize`.
pub open spec fn parsed_index(s: Seq<char>) -> Option<usize> {
    if s.len() > 0 && s[0] == '+' {
        parsed_digits(s.subrange(1, s.len() as int))
    } else {
        parsed_digits(s)
    }
}

/// The name of the file that holds the scene with the given index.
pub open spec fn level_name(index: nat) -> Seq<char> {
    "level"@ + decimal(index)
}

/// The index of the scene that a file name stands for: the number behind
/// `level`, if the name has that form.
pub open spec fn level_index_of(name: Seq<char>) -> Option<usize> {
    if "level"@.is_prefix_of(name) {
        parsed_index(name.subrange("level"@.len() as int, name.len() as int))
    } else {
        None
    }
}

pub proof fn lemma_digits_bound(s: Seq<char>, n: int, m: int)
    requires
        0 <= n <= m,
        digits_value(s, m) is Some,
    ensures
        digits_value(s, n) is Some,
        digits_value(s, n)->0 <= digits_value(s, m)->0,
    decreases m - n,
{
    if n < m {
        lemma_digits_bound(s, n, m - 1);
    }
}

pub proof fn lemma_digits_failure_stays(s: Seq<char>, n: int, m: int)
    requires
        0 <= n <= m,
        digits_value(s, n) is None,
    ensures
        digits_value(s, m) is None,
    decreases m - n,
{
    if n < m {
        lemma_digits_failure_stays(s, n, m - 1);
    }
}

/// The character of a decimal digit.
fn digit_to_char(d: usize) -> (c: char)
    requires
        d < 10,
    ensures
        c == digit_char(d as nat),
{
    if d == 0 {
        '0'
    } else if d == 1 {
        '1'
    } else if d == 2 {
        '2'
    } else if d == 3 {
        '3'
    } else if d == 4 {
        '4'
    } else if d == 5 {
        '5'
    } else if d == 6 {
        '6'
    } else if d == 7 {
        '7'
    } else if d == 8 {
        '8'
    } else {
        '9'
    }
}

/// The value of a decimal digit.
fn char_to_digit(c: char) -> (r: Option<usize>)
    ensures
        match r {
            Some(d) => digit_value(c) == Some(d as nat) && d < 10,
            None => digit_value(c) is None,
        },
{
    if c == '0' {
        Some(0)
    } else if c == '1' {
        Some(1)
    } else if c == '2' {
        Some(2)
    } else if c == '3' {
        Some(3)
    } else if c == '4' {
        Some(4)
    } else if c == '5' {
        Some(5)
    } else if c == '6' {
        Some(6)
    } else if c == '7' {
        Some(7)
    } else if c == '8' {
        Some(8)
    } else if c == '9' {
        Some(9)
    } else {
        None
    }
}

/// Reads a number from its decimal form.
pub fn parse_index(s: &str) -> (r: Option<usize>)
    ensures
        r == parsed_index(s@),
{
    let len: usize = s.unicode_len();
    let start: usize = if len > 0 && s.get_char(0) == '+' {
        1
    } else {
        0
    };
    if start == len {
        return None;
    }
    let ghost digits = s@.subrange(start as int, len as int);
    proof {
        if start == 0 {
            assert(digits =~= s@);
        }
    }
    let mut value: usize = 0;
    let mut i: usize = start;
    while i < len
        invariant
            start <= i <= len,
            len == s@.len(),
            digits == s@.subrange(start as int, len as int),
            parsed_index(s@) == parsed_digits(digits),
            digits_value(digits, i - start) == Some(value as nat),
        decreases len - i,
    {
        let c = s.get_char(i);
        assert(digits[i - start] == c);
        let d = match char_to_digit(c) {
            Some(d) => d,
            None => {
                proof {
                    lemma_digits_failure_stays(digits, i - start + 1, digits.len() as int);
                }
                return None;
            },
        };
        let next = match value.checked_mul(10) {
            Some(v) => v.checked_add(d),
            None => None,
        };
        match next {
            Some(v) => {
                value = v;
            },
            None => {
                proof {
                    assert(digits_value(digits, i - start + 1) == Some((value * 10 + d) as nat));
                    if digits_value(digits, digits.len() as int) is Some {
                        lemma_digits_bound(digits, i - start + 1, digits.len() as int);
                    }
                }
                return None;
            },
        }
        i += 1;
    }
    Some(value)
}

/// Writes a number in its decimal form.
pub fn to_decimal(n: usize) -> (r: String)
    ensures
        r@ == decimal(n as nat),
    decreases n,
{
    if n < 10 {
        let r = char_text(digit_to_char(n));
        r
    } else {
        let head = to_decimal(n / 10);
        let r = head.concat(char_text(digit_to_char(n % 10)).as_str());
        assert(r@ =~= decimal((n / 10) as nat).push(digit_char((n % 10) as nat)));
        r
    }
}

/// The text that holds one decimal digit.
fn char_text(c: char) -> (r: String)
    requires
        digit_value(c) is Some,
    ensures
        r@ == seq![c],
{
    proof {
        reveal_strlit("0");
        reveal_strlit("1");
        reveal_strlit("2");
        reveal_strlit("3");
        reveal_strlit("4");
        reveal_strlit("5");
        reveal_strlit("6");
        reveal_strlit("7");
        reveal_strlit("8");
        reveal_strlit("9");
    }
    let text: &str = if c == '0' {
        "0"
    } else if c == '1' {
        "1"
    } else if c == '2' {
        "2"
    } else if c == '3' {
        "3"
    } else if c == '4' {
        "4"
    } else if c == '5' {
        "5"
    } else if c == '6' {
        "6"
    } else if c == '7' {
        "7"
    } else if c == '8' {
        "8"
    } else {
        "9"
    };
    let r = String::from_str(text);
    assert(r@ =~= seq![c]);
    r
}

/// The name of the file that holds the scene with the given index.
pub fn level_file_name(index: usize) -> (r: String)
    ensures
        r@ == level_name(index as nat),
{
    String::from_str("level").concat(to_decimal(index).as_str())
}

/// The index of the scene that a file name stands for.
pub fn level_index(name: &str) -> (r: Option<usize>)
    ensures
        r == level_index_of(name@),
{
    proof {
        reveal_strlit("level");
    }
    if str_starts_with(name, "level") {
        let len = name.unicode_len();
        parse_index(name.substring_char(5, len))
    } else {
        None
    }
}

/// The name under which a scene bundle offers a scene.
pub open spec fn scene_bundle_scene_name(bundle_name: Seq<char>, scene_name: Seq<char>) -> Seq<
    char,
> {
    "unity-scene-repacker/"@ + bundle_name + "_"@ + scene_name + ".unity"@
}

/// The name under which an asset bundle offers an object of a scene.
pub open spec fn asset_bundle_object_asset_name(scene_name: Seq<char>, scene_path: Seq<char>)
    -> Seq<char> {
    lowercased(scene_name + "/"@ + scene_path + ".prefab"@)
}

/// The name under which an asset bundle offers an object that stands
/// outside the hierarchy.
pub open spec fn extra_object_asset_name(class_name: Seq<char>, object_name: Seq<char>) -> Seq<
    char,
> {
    lowercased("ExtraObjects/"@ + class_name + "/"@ + object_name + ".prefab"@)
}

/// A scene as messages name it: by its name and file, or by its file alone.
pub open spec fn scene_display(scene_name: Option<Seq<char>>, original_name: Seq<char>) -> Seq<
    char,
> {
    match scene_name {
        Some(name) => name + " ("@ + original_name + "'"@,
        None => "'"@ + original_name + "'"@,
    }
}

/// The warning for a path that leads to nothing in a scene.
pub open spec fn lookup_miss(path: Seq<char>, scene: Seq<char>) -> Seq<char> {
    "Could not find path '"@ + path + "' in "@ + scene
}

/// The name of the entry that holds a scene in a scene bundle.
pub open spec fn build_player_name(bundle_name: Seq<char>, scene_name: Seq<char>) -> Seq<char> {
    "BuildPlayer-"@ + bundle_name + "_"@ + scene_name
}

/// The name of the entry that holds the shared assets of a scene.
pub open spec fn shared_assets_name(bundle_name: Seq<char>, scene_name: Seq<char>) -> Seq<char> {
    build_player_name(bundle_name, scene_name) + ".sharedAssets"@
}

/// The name of the entry that holds the serialized file of an asset bundle.
pub open spec fn cab_name(bundle_name: Seq<char>) -> Seq<char> {
    "CAB-"@ + bundle_name
}

pub fn get_scene_bundle_scene_name(bundle_name: &str, scene_name: &str) -> (r: String)
    ensures
        r@ == scene_bundle_scene_name(bundle_name@, scene_name@),
{
    String::from_str("unity-scene-repacker/").concat(bundle_name).concat("_").concat(
        scene_name,
    ).concat(".unity")
}

pub fn get_asset_bundle_object_asset_name(scene_name: &str, scene_path: &str) -> (r: String)
    ensures
        r@ == asset_bundle_object_asset_name(scene_name@, scene_path@),
{
    let plain = String::from_str(scene_name).concat("/").concat(scene_path).concat(".prefab");
    to_lowercase(plain.as_str())
}

pub fn get_extra_object_asset_name(class_name: &str, object_name: &str) -> (r: String)
    ensures
        r@ == extra_object_asset_name(class_name@, object_name@),
{
    let plain = String::from_str("ExtraObjects/").concat(class_name).concat("/").concat(
        object_name,
    ).concat(".prefab");
    to_lowercase(plain.as_str())
}

pub fn scene_name_display(scene_name: Option<&str>, original_name: &str) -> (r: String)
    ensures
        r@ == scene_display(
            match scene_name {
                Some(name) => Some(name@),
                None => None,
            },
            original_name@,
        ),
{
    match scene_name {
        Some(name) => String::from_str(name).concat(" (").concat(original_name).concat("'"),
        None => String::from_str("'").concat(original_name).concat("'"),
    }
}

/// The warning for a path that leads to nothing in a scene.
pub fn lookup_miss_message(path: &str, scene: &str) -> (r: String)
    ensures
        r@ == lookup_miss(path@, scene@),
{
    String::from_str("Could not find path '").concat(path).concat("' in ").concat(scene)
}

/// The name of the entry that holds a scene in a scene bundle.
pub fn get_build_player_name(bundle_name: &str, scene_name: &str) -> (r: String)
    ensures
        r@ == build_player_name(bundle_name@, scene_name@),
{
    String::from_str("BuildPlayer-").concat(bundle_name).concat("_").concat(scene_name)
}

/// The name of the entry that holds the shared assets of a scene.
pub fn get_shared_assets_name(bundle_name: &str, scene_name: &str) -> (r: String)
    ensures
        r@ == shared_assets_name(bundle_name@, scene_name@),
{
    get_build_player_name(bundle_name, scene_name).concat(".sharedAssets")
}

/// The name of the entry that holds the serialized file of an asset bundle.
pub fn get_cab_name(bundle_name: &str) -> (r: String)
    ensures
        r@ == cab_name(bundle_name@),
{
    String::from_str("CAB-").concat(bundle_name)
}

} // verus!
