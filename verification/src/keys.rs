//! The key codes that `PressKey` actions may carry, with the CDP key
//! records they dispatch as. For these named keys the `code` and `key`
//! fields coincide; only Enter carries text.

use vstd::prelude::*;

verus! {

pub struct KeyInfo {
    pub code: &'static str,
    pub key: &'static str,
    pub text: &'static str,
}

/// The eight key codes the exerciser knows how to press. This set must
/// stay in sync with the key-code generator of the specification layer.
pub open spec fn is_supported_key_code(code: u8) -> bool {
    code == 8 || code == 9 || code == 13 || code == 27 || code == 37 || code == 38 || code == 39
        || code == 40
}

/// The supported key codes, in ascending order.
pub fn supported_key_codes() -> (r: Vec<u8>)
    ensures
        r@ == seq![8u8, 9u8, 13u8, 27u8, 37u8, 38u8, 39u8, 40u8],
        forall|i: int| 0 <= i < r@.len() ==> is_supported_key_code(#[trigger] r@[i]),
{
    let mut v: Vec<u8> = Vec::new();
    v.push(8);
    v.push(9);
    v.push(13);
    v.push(27);
    v.push(37);
    v.push(38);
    v.push(39);
    v.push(40);
    proof {
        assert(v@ =~= seq![8u8, 9u8, 13u8, 27u8, 37u8, 38u8, 39u8, 40u8]);
    }
    v
}

/// The CDP key record for a key code; `None` exactly on unsupported codes.
pub fn key_info(code: u8) -> (r: Option<KeyInfo>)
    ensures
        r is Some <==> is_supported_key_code(code),
        r matches Some(k) ==> k.key@ == k.code@,
        r matches Some(k) ==> (code == 13 ==> k.text@ == "\r"@),
        r matches Some(k) ==> (code != 13 ==> k.text@ == ""@),
        code == 8 ==> (r matches Some(k) && k.code@ == "Backspace"@),
        code == 9 ==> (r matches Some(k) && k.code@ == "Tab"@),
        code == 13 ==> (r matches Some(k) && k.code@ == "Enter"@),
        code == 27 ==> (r matches Some(k) && k.code@ == "Escape"@),
        code == 37 ==> (r matches Some(k) && k.code@ == "ArrowLeft"@),
        code == 38 ==> (r matches Some(k) && k.code@ == "ArrowUp"@),
        code == 39 ==> (r matches Some(k) && k.code@ == "ArrowRight"@),
        code == 40 ==> (r matches Some(k) && k.code@ == "ArrowDown"@),
{
    match code {
        8 => Some(KeyInfo { code: "Backspace", key: "Backspace", text: "" }),
        9 => Some(KeyInfo { code: "Tab", key: "Tab", text: "" }),
        13 => Some(KeyInfo { code: "Enter", key: "Enter", text: "\r" }),
        27 => Some(KeyInfo { code: "Escape", key: "Escape", text: "" }),
        37 => Some(KeyInfo { code: "ArrowLeft", key: "ArrowLeft", text: "" }),
        38 => Some(KeyInfo { code: "ArrowUp", key: "ArrowUp", text: "" }),
        39 => Some(KeyInfo { code: "ArrowRight", key: "ArrowRight", text: "" }),
        40 => Some(KeyInfo { code: "ArrowDown", key: "ArrowDown", text: "" }),
        _ => None,
    }
}

} // verus!
