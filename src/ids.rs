use vstd::prelude::*;
use crate::direction::Direction;

verus! {

/// The lowercase hexadecimal digit of a value below 16.
pub open spec fn hex_char(d: u128) -> char {
    if d < 10 {
        ((d + 48) as u8) as char
    } else {
        ((d + 87) as u8) as char
    }
}

/// The `n`th hexadecimal digit of `id`, most significant first.
pub open spec fn nibble(id: u128, n: int) -> u128 {
    (id >> ((4 * (31 - n)) as u128)) & 0xf
}

/// The text of an identifier: its 32 hexadecimal digits, lowercase and most
/// significant first, in groups of 8, 4, 4, 4 and 12 joined by hyphens.
pub open spec fn uuid_text(id: u128) -> Seq<char> {
    Seq::new(36, |i: int|
        if i == 8 || i == 13 || i == 18 || i == 23 {
            '-'
        } else {
            hex_char(nibble(id, if i < 8 { i } else if i < 13 { i - 1 } else if i < 18 { i - 2 } else if i < 23 { i - 3 } else { i - 4 }))
        })
}

/// Relies on `uuid::Uuid::new_v4`: random bits, with the version nibble set
/// to 4 and the two variant bits to `10`.
#[verifier::external_body]
pub(crate) fn new_random_id() -> (r: u128)
    ensures
        (r >> 76u128) & 0xfu128 == 4,
        (r >> 62u128) & 0x3u128 == 2,
{
    uuid::Uuid::new_v4().as_u128()
}

/// Relies on `uuid::Uuid::from_u128` and its `Display` impl, which writes the
/// hyphenated lowercase form.
#[verifier::external_body]
pub(crate) fn id_text(id: u128) -> (r: String)
    ensures
        r@ == uuid_text(id),
{
    uuid::Uuid::from_u128(id).to_string()
}

/// Where the record of program `id` is kept: `<programs>/<id>`.
pub fn record_path(programs_dir: &str, id: u128) -> (r: String)
    ensures
        r@ == programs_dir@ + "/"@ + uuid_text(id),
{
    let text = id_text(id);
    String::from_str(programs_dir).concat("/").concat(text.as_str())
}

/// Where the loaded program `id` is pinned: `<fs>/prog_<id>`.
pub fn program_pin_path(fs_dir: &str, id: u128) -> (r: String)
    ensures
        r@ == fs_dir@ + "/prog_"@ + uuid_text(id),
{
    let text = id_text(id);
    String::from_str(fs_dir).concat("/prog_").concat(text.as_str())
}

/// Where the attach link of program `id` is pinned: `<fs>/prog_<id>_link`.
pub fn link_pin_path(fs_dir: &str, id: u128) -> (r: String)
    ensures
        r@ == fs_dir@ + "/prog_"@ + uuid_text(id) + "_link"@,
{
    let text = id_text(id);
    String::from_str(fs_dir).concat("/prog_").concat(text.as_str()).concat("_link")
}

/// The files that unloading program `id` removes, where present: its record,
/// its pinned program and its pinned link.
pub fn persisted_paths(programs_dir: &str, fs_dir: &str, id: u128) -> (r: Vec<String>)
    ensures
        r@.len() == 3,
        r@[0]@ == programs_dir@ + "/"@ + uuid_text(id),
        r@[1]@ == fs_dir@ + "/prog_"@ + uuid_text(id),
        r@[2]@ == fs_dir@ + "/prog_"@ + uuid_text(id) + "_link"@,
{
    let mut v: Vec<String> = Vec::new();
    v.push(record_path(programs_dir, id));
    v.push(program_pin_path(fs_dir, id));
    v.push(link_pin_path(fs_dir, id));
    v
}

/// The character of a decimal digit.
pub open spec fn digit_char(d: nat) -> char {
    if d == 0 { '0' }
    else if d == 1 { '1' }
    else if d == 2 { '2' }
    else if d == 3 { '3' }
    else if d == 4 { '4' }
    else if d == 5 { '5' }
    else if d == 6 { '6' }
    else if d == 7 { '7' }
    else if d == 8 { '8' }
    else { '9' }
}

/// A number in decimal, without leading zeros.
pub open spec fn decimal(n: nat) -> Seq<char>
    decreases n,
{
    if n < 10 {
        seq![digit_char(n)]
    } else {
        decimal(n / 10) + seq![digit_char(n % 10)]
    }
}

fn digit_str(d: u64) -> (r: &'static str)
    requires
        d < 10,
    ensures
        r@ == seq![digit_char(d as nat)],
{
    proof {
        reveal_strlit("0");
        reveal_strlit("1");
        reveal_strlit("2");
        reveal_strlit("3");
        reveal_strlit("4");
        reveal_strlit("5");
        reveal_strlit("6");
        reveal_strlit("7");
        reveal_strlit("8");
        reveal_strlit("9");
    }
    let r = if d == 0 { "0" }
        else if d == 1 { "1" }
        else if d == 2 { "2" }
        else if d == 3 { "3" }
        else if d == 4 { "4" }
        else if d == 5 { "5" }
        else if d == 6 { "6" }
        else if d == 7 { "7" }
        else if d == 8 { "8" }
        else { "9" };
    assert(r@ =~= seq![digit_char(d as nat)]);
    r
}

/// Writes `n` in decimal.
pub fn decimal_text(n: u64) -> (r: String)
    ensures
        r@ == decimal(n as nat),
    decreases n,
{
    if n < 10 {
        String::from_str(digit_str(n))
    } else {
        decimal_text(n / 10).concat(digit_str(n % 10))
    }
}

/// Where the dispatcher of a hook is pinned at a revision:
/// `<fs>/dispatcher_<interface index>_<direction>_<revision>`, the direction
/// left out for a fast-path hook.
pub fn dispatcher_pin_path(fs_dir: &str, if_index: u32, direction: Option<Direction>, revision: u64) -> (r: String)
    ensures
        r@ == fs_dir@ + "/dispatcher_"@ + decimal(if_index as nat) + (match direction {
            Some(d) => "_"@ + d.label(),
            None => Seq::<char>::empty(),
        }) + "_"@ + decimal(revision as nat),
{
    let mut path = String::from_str(fs_dir).concat("/dispatcher_").concat(decimal_text(if_index as u64).as_str());
    match direction {
        Some(d) => {
            path = path.concat("_").concat(d.fmt().as_str());
        },
        None => {},
    }
    path.concat("_").concat(decimal_text(revision).as_str())
}

} // verus!
