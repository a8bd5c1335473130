//! The special messages that change a wallet when they are signed: adding or
//! removing a signer, setting the threshold and transferring tokens. They are
//! proposed as ordinary messages whose text names the command.

use crate::codec::{
    decimal_parse, decimal_text, find_separator, format_decimal, hex_decoding, hex_encode, hex_encoding,
    lemma_decimal_roundtrip, lemma_hex_roundtrip, lemma_str_chars, parse_decimal, separator_index, starts_with,
    str_from_utf8,
};
use crate::crypto::{max_principal_len, principal_from_text, principal_parse, principal_text, principal_to_text};
use crate::wallet::TransferArgs;
use vstd::prelude::*;
use vstd::string::StringSliceAdditionalSpecFns;
use vstd::utf8::{decode_utf8, encode_utf8, valid_utf8};

verus! {

/// The command that signing a message carries out.
pub enum SignCommand {
    /// Add the principal (its bytes), when the text names one.
    AddSigner(Option<Vec<u8>>),
    /// Remove the principal (its bytes), when the text names one.
    RemoveSigner(Option<Vec<u8>>),
    /// Set the threshold, when the text is a number that fits in a byte.
    SetThreshold(Option<u8>),
    /// Transfer tokens.
    Transfer(TransferArgs),
    /// A transfer whose amount or receiver cannot be read.
    MalformedTransfer,
    /// No command: the message is signed as it is.
    Plain,
}

impl SignCommand {
    /// Whether signing a message with this command makes a signature: only a
    /// message that carries no command is signed.
    pub fn needs_signature(&self) -> (r: bool)
        ensures
            r == (self@ is Plain),
    {
        match self {
            SignCommand::Plain => true,
            _ => false,
        }
    }
}

/// The abstract form of a command.
pub ghost enum CommandView {
    AddSigner(Option<Seq<u8>>),
    RemoveSigner(Option<Seq<u8>>),
    SetThreshold(Option<u8>),
    Transfer(u64, Seq<u8>),
    MalformedTransfer,
    Plain,
}

impl View for SignCommand {
    type V = CommandView;

    open spec fn view(&self) -> CommandView {
        match self {
            SignCommand::AddSigner(p) => CommandView::AddSigner(match p {
                Some(b) => Some(b@),
                None => None,
            }),
            SignCommand::RemoveSigner(p) => CommandView::RemoveSigner(match p {
                Some(b) => Some(b@),
                None => None,
            }),
            SignCommand::SetThreshold(t) => CommandView::SetThreshold(*t),
            SignCommand::Transfer(args) => if args.to_subaccount is None {
                CommandView::Transfer(args.amount, args.to_principal@)
            } else {
                CommandView::MalformedTransfer
            },
            SignCommand::MalformedTransfer => CommandView::MalformedTransfer,
            SignCommand::Plain => CommandView::Plain,
        }
    }
}

/// The text that starts an add-signer command.
pub open spec fn add_signer_tag() -> Seq<u8> {
    encode_utf8("ADD_SIGNER::"@)
}

/// The text that starts a remove-signer command.
pub open spec fn remove_signer_tag() -> Seq<u8> {
    encode_utf8("REMOVE_SIGNER::"@)
}

/// The text that starts a set-threshold command.
pub open spec fn set_threshold_tag() -> Seq<u8> {
    encode_utf8("SET_THRESHOLD::"@)
}

/// The text that starts a transfer command.
pub open spec fn transfer_tag() -> Seq<u8> {
    encode_utf8("TRANSFER::"@)
}

/// The separator between a transfer's fields.
pub open spec fn separator() -> Seq<u8> {
    encode_utf8("::"@)
}

/// Whether a byte string starts with a prefix.
pub open spec fn has_prefix(text: Seq<u8>, prefix: Seq<u8>) -> bool {
    prefix.len() <= text.len() && text.take(prefix.len() as int) == prefix
}

/// The principal that a UTF-8 text names, if any.
pub open spec fn text_principal(text: Seq<u8>) -> Option<Seq<u8>> {
    if valid_utf8(text) {
        principal_parse(decode_utf8(text))
    } else {
        None
    }
}

/// A transfer command from the text after its tag: the amount up to the next
/// `::`, then the receiver up to the following `::` or the end.
pub open spec fn transfer_command(rest: Seq<u8>) -> CommandView {
    match separator_index(rest) {
        None => CommandView::MalformedTransfer,
        Some(i) => {
            let tail = rest.skip(i + 2);
            let to = match separator_index(tail) {
                Some(j) => tail.take(j),
                None => tail,
            };
            match (decimal_parse(rest.take(i), u64::MAX as nat), text_principal(to)) {
                (Some(amount), Some(p)) => CommandView::Transfer(amount as u64, p),
                _ => CommandView::MalformedTransfer,
            }
        },
    }
}

/// The command that a message carries: none unless it is valid UTF-8 and
/// starts with one of the tags, tried in the order add, remove, threshold,
/// transfer.
pub open spec fn command_of(message: Seq<u8>) -> CommandView {
    if !valid_utf8(message) {
        CommandView::Plain
    } else if has_prefix(message, add_signer_tag()) {
        CommandView::AddSigner(text_principal(message.skip(add_signer_tag().len() as int)))
    } else if has_prefix(message, remove_signer_tag()) {
        CommandView::RemoveSigner(text_principal(message.skip(remove_signer_tag().len() as int)))
    } else if has_prefix(message, set_threshold_tag()) {
        CommandView::SetThreshold(match decimal_parse(message.skip(set_threshold_tag().len() as int), 255) {
            Some(t) => Some(t as u8),
            None => None,
        })
    } else if has_prefix(message, transfer_tag()) {
        transfer_command(message.skip(transfer_tag().len() as int))
    } else {
        CommandView::Plain
    }
}

/// Reads the principal that a UTF-8 text names.
fn read_principal(text: &[u8]) -> (p: Option<Vec<u8>>)
    ensures
        match text_principal(text@) {
            Some(b) => p matches Some(x) && x@ == b && x@.len() <= max_principal_len(),
            None => p is None,
        },
{
    match str_from_utf8(text) {
        Some(t) => {
            proof {
                lemma_str_chars(t, text@);
            }
            principal_from_text(t)
        },
        None => None,
    }
}

fn read_transfer(rest: &[u8]) -> (c: SignCommand)
    ensures
        c@ == transfer_command(rest@),
        c matches SignCommand::Transfer(args) ==> args.to_principal@.len() <= max_principal_len() && args.to_subaccount is None,
{
    let i = match find_separator(rest) {
        Some(i) => i,
        None => return SignCommand::MalformedTransfer,
    };
    let amount_text = vstd::slice::slice_subrange(rest, 0, i);
    assert(i + 2 <= rest.len());
    let tail = vstd::slice::slice_subrange(rest, i + 2, rest.len());
    assert(amount_text@ =~= rest@.take(i as int));
    assert(tail@ =~= rest@.skip(i as int + 2));
    let ghost expected_to = match separator_index(tail@) {
        Some(j) => tail@.take(j),
        None => tail@,
    };
    let to = match find_separator(tail) {
        Some(j) => {
            let t = vstd::slice::slice_subrange(tail, 0, j);
            assert(t@ =~= expected_to);
            t
        },
        None => {
            assert(tail@ =~= expected_to);
            tail
        },
    };
    let amount = parse_decimal(amount_text, u64::MAX);
    let to_principal = read_principal(to);
    match (amount, to_principal) {
        (Some(a), Some(p)) => SignCommand::Transfer(TransferArgs { amount: a, to_principal: p, to_subaccount: None }),
        _ => SignCommand::MalformedTransfer,
    }
}

/// The command that a message carries (see `command_of`).
pub fn parse_sign_command(message: &[u8]) -> (c: SignCommand)
    ensures
        c@ == command_of(message@),
        c matches SignCommand::AddSigner(Some(p)) ==> p@.len() <= max_principal_len(),
        c matches SignCommand::RemoveSigner(Some(p)) ==> p@.len() <= max_principal_len(),
        c matches SignCommand::Transfer(args) ==> args.to_principal@.len() <= max_principal_len() && args.to_subaccount is None,
{
    if str_from_utf8(message).is_none() {
        return SignCommand::Plain;
    }
    let add = "ADD_SIGNER::".as_bytes();
    let remove = "REMOVE_SIGNER::".as_bytes();
    let threshold = "SET_THRESHOLD::".as_bytes();
    let transfer = "TRANSFER::".as_bytes();
    if starts_with(message, add) {
        let rest = vstd::slice::slice_subrange(message, add.len(), message.len());
        assert(rest@ =~= message@.skip(add_signer_tag().len() as int));
        SignCommand::AddSigner(read_principal(rest))
    } else if starts_with(message, remove) {
        let rest = vstd::slice::slice_subrange(message, remove.len(), message.len());
        assert(rest@ =~= message@.skip(remove_signer_tag().len() as int));
        SignCommand::RemoveSigner(read_principal(rest))
    } else if starts_with(message, threshold) {
        let rest = vstd::slice::slice_subrange(message, threshold.len(), message.len());
        assert(rest@ =~= message@.skip(set_threshold_tag().len() as int));
        SignCommand::SetThreshold(match parse_decimal(rest, 255) {
            Some(t) => Some(t as u8),
            None => None,
        })
    } else if starts_with(message, transfer) {
        let rest = vstd::slice::slice_subrange(message, transfer.len(), message.len());
        assert(rest@ =~= message@.skip(transfer_tag().len() as int));
        read_transfer(rest)
    } else {
        SignCommand::Plain
    }
}

/// Whether every byte is ASCII.
pub open spec fn is_ascii_bytes(bytes: Seq<u8>) -> bool {
    forall|i: int| 0 <= i < bytes.len() ==> #[trigger] bytes[i] <= 0x7f
}

proof fn lemma_not_prefix(text: Seq<u8>, prefix: Seq<u8>)
    requires
        prefix.len() > 0,
        text.len() > 0,
        text[0] != prefix[0],
    ensures
        !has_prefix(text, prefix),
{
    if prefix.len() <= text.len() {
        assert(text.take(prefix.len() as int)[0] == text[0]);
    }
}

proof fn lemma_ascii_valid(bytes: Seq<u8>)
    requires
        is_ascii_bytes(bytes),
    ensures
        valid_utf8(bytes),
{
    assert(bytes.subrange(0, 0) =~= Seq::<u8>::empty());
    assert(valid_utf8(Seq::<u8>::empty()));
    vstd::utf8::partial_valid_utf8_extend_ascii_block(bytes, 0, bytes.len() as int);
    assert(bytes.subrange(0, bytes.len() as int) =~= bytes);
}

proof fn lemma_ascii_text(text: Seq<char>)
    requires
        vstd::utf8::is_ascii_chars(text),
    ensures
        encode_utf8(text).len() == text.len(),
        forall|i: int| 0 <= i < text.len() ==> #[trigger] encode_utf8(text)[i] == text[i] as u8,
        is_ascii_bytes(encode_utf8(text)),
{
    vstd::utf8::is_ascii_chars_encode_utf8(text);
    assert forall|i: int| 0 <= i < text.len() implies #[trigger] encode_utf8(text)[i] <= 0x7f by {
        assert(encode_utf8(text)[i] == text[i] as u8);
        assert(text[i] as u8 <= 0x7f);
    }
}

/// The tags are ASCII, start with distinct letters, and the separator is `::`.
proof fn lemma_tags()
    ensures
        is_ascii_bytes(add_signer_tag()),
        is_ascii_bytes(remove_signer_tag()),
        is_ascii_bytes(set_threshold_tag()),
        is_ascii_bytes(transfer_tag()),
        add_signer_tag().len() == 12 && add_signer_tag()[0] == 65,
        remove_signer_tag().len() == 15 && remove_signer_tag()[0] == 82,
        set_threshold_tag().len() == 15 && set_threshold_tag()[0] == 83,
        transfer_tag().len() == 10 && transfer_tag()[0] == 84,
        separator() == seq![58u8, 58u8],
{
    reveal_strlit("ADD_SIGNER::");
    reveal_strlit("REMOVE_SIGNER::");
    reveal_strlit("SET_THRESHOLD::");
    reveal_strlit("TRANSFER::");
    reveal_strlit("::");
    lemma_ascii_text("ADD_SIGNER::"@);
    lemma_ascii_text("REMOVE_SIGNER::"@);
    lemma_ascii_text("SET_THRESHOLD::"@);
    lemma_ascii_text("TRANSFER::"@);
    lemma_ascii_text("::"@);
    assert(separator() =~= seq![58u8, 58u8]);
}

/// The UTF-8 bytes of a principal's text: ASCII, without `:`, and naming the
/// principal again.
proof fn lemma_principal_text_bytes(principal: Seq<u8>)
    requires
        forall|i: int| 0 <= i < principal_text(principal).len() ==> crate::crypto::is_principal_text_char(#[trigger] principal_text(principal)[i]),
        principal_parse(principal_text(principal)) == Some(principal),
    ensures
        is_ascii_bytes(encode_utf8(principal_text(principal))),
        forall|i: int| 0 <= i < encode_utf8(principal_text(principal)).len() ==> #[trigger] encode_utf8(principal_text(principal))[i] != 58,
        text_principal(encode_utf8(principal_text(principal))) == Some(principal),
{
    let t = principal_text(principal);
    assert(vstd::utf8::is_ascii_chars(t)) by {
        assert forall|i: int| 0 <= i < t.len() implies '\0' <= #[trigger] t[i] <= '\u{7f}' by {
            assert(crate::crypto::is_principal_text_char(t[i]));
        }
    }
    lemma_ascii_text(t);
    assert forall|i: int| 0 <= i < encode_utf8(t).len() implies #[trigger] encode_utf8(t)[i] != 58 by {
        assert(crate::crypto::is_principal_text_char(t[i]));
        assert(encode_utf8(t)[i] == t[i] as u8);
    }
    vstd::utf8::encode_utf8_valid_utf8(t);
    vstd::utf8::encode_utf8_decode_utf8(t);
}

/// The UTF-8 bytes of a principal's text.
fn principal_text_bytes(principal: &[u8]) -> (b: Vec<u8>)
    requires
        principal@.len() <= max_principal_len(),
    ensures
        b@ == encode_utf8(principal_text(principal@)),
        is_ascii_bytes(b@),
        forall|i: int| 0 <= i < b@.len() ==> #[trigger] b@[i] != 58,
        text_principal(b@) == Some(principal@),
{
    let t = principal_to_text(principal);
    proof {
        lemma_principal_text_bytes(principal@);
    }
    vstd::slice::slice_to_vec(t.as_str().as_bytes())
}

fn join(a: &[u8], b: &[u8]) -> (r: Vec<u8>)
    ensures
        r@ == a@ + b@,
{
    let mut r = vstd::slice::slice_to_vec(a);
    let mut i: usize = 0;
    while i < b.len()
        invariant
            i <= b@.len(),
            r@ == a@ + b@.take(i as int),
        decreases b@.len() - i,
    {
        r.push(b[i]);
        i = i + 1;
        assert(r@ =~= a@ + b@.take(i as int));
    }
    assert(b@.take(i as int) =~= b@);
    r
}

/// The message that proposes adding a signer: the hex text of
/// `ADD_SIGNER::` followed by the principal's text. Signing it adds exactly
/// that principal.
pub fn add_signer_message(principal: &[u8]) -> (hex: String)
    requires
        principal@.len() <= max_principal_len(),
    ensures
        hex@ == hex_encoding(add_signer_tag() + encode_utf8(principal_text(principal@))),
        command_of(hex_decoding(encode_utf8(hex@))->0) == CommandView::AddSigner(Some(principal@)),
{
    let text = principal_text_bytes(principal);
    let message = join("ADD_SIGNER::".as_bytes(), text.as_slice());
    proof {
        lemma_tags();
        lemma_hex_roundtrip(message@);
        let tag = add_signer_tag();
        assert(is_ascii_bytes(message@)) by {
            assert forall|i: int| 0 <= i < message@.len() implies #[trigger] message@[i] <= 0x7f by {
                if i < tag.len() {
                    assert(message@[i] == tag[i]);
                } else {
                    assert(message@[i] == text@[i - tag.len()]);
                }
            }
        }
        lemma_ascii_valid(message@);
        assert(message@.take(tag.len() as int) =~= tag);
        assert(message@.skip(tag.len() as int) =~= text@);
    }
    hex_encode(message.as_slice())
}

/// The message that proposes removing a signer: the hex text of
/// `REMOVE_SIGNER::` followed by the principal's text. Signing it removes
/// exactly that principal.
pub fn remove_signer_message(principal: &[u8]) -> (hex: String)
    requires
        principal@.len() <= max_principal_len(),
    ensures
        hex@ == hex_encoding(remove_signer_tag() + encode_utf8(principal_text(principal@))),
        command_of(hex_decoding(encode_utf8(hex@))->0) == CommandView::RemoveSigner(Some(principal@)),
{
    let text = principal_text_bytes(principal);
    let message = join("REMOVE_SIGNER::".as_bytes(), text.as_slice());
    proof {
        lemma_tags();
        lemma_hex_roundtrip(message@);
        let tag = remove_signer_tag();
        assert(is_ascii_bytes(message@)) by {
            assert forall|i: int| 0 <= i < message@.len() implies #[trigger] message@[i] <= 0x7f by {
                if i < tag.len() {
                    assert(message@[i] == tag[i]);
                } else {
                    assert(message@[i] == text@[i - tag.len()]);
                }
            }
        }
        lemma_ascii_valid(message@);
        assert(message@.take(tag.len() as int) =~= tag);
        assert(message@.skip(tag.len() as int) =~= text@);
        lemma_not_prefix(message@, add_signer_tag());
    }
    hex_encode(message.as_slice())
}

/// The message that proposes a new threshold: the hex text of
/// `SET_THRESHOLD::` followed by the threshold in decimal. Signing it sets
/// exactly that threshold.
pub fn set_threshold_message(threshold: u8) -> (hex: String)
    ensures
        hex@ == hex_encoding(set_threshold_tag() + decimal_text(threshold as nat)),
        command_of(hex_decoding(encode_utf8(hex@))->0) == CommandView::SetThreshold(Some(threshold)),
{
    let digits = format_decimal(threshold as u64);
    let message = join("SET_THRESHOLD::".as_bytes(), digits.as_slice());
    proof {
        lemma_tags();
        lemma_decimal_roundtrip(threshold as nat);
        lemma_hex_roundtrip(message@);
        let tag = set_threshold_tag();
        assert(is_ascii_bytes(message@)) by {
            assert forall|i: int| 0 <= i < message@.len() implies #[trigger] message@[i] <= 0x7f by {
                if i < tag.len() {
                    assert(message@[i] == tag[i]);
                } else {
                    assert(message@[i] == digits@[i - tag.len()]);
                    assert(crate::codec::is_digit(digits@[i - tag.len()]));
                }
            }
        }
        lemma_ascii_valid(message@);
        assert(message@.take(tag.len() as int) =~= tag);
        assert(message@.skip(tag.len() as int) =~= digits@);
        lemma_not_prefix(message@, add_signer_tag());
        lemma_not_prefix(message@, remove_signer_tag());
        assert(decimal_parse(digits@, 255) == Some(threshold as nat));
    }
    hex_encode(message.as_slice())
}

/// The message that proposes a transfer: the hex text of `TRANSFER::`, the
/// amount in decimal, `::` and the receiver's text. Signing it transfers
/// exactly that amount to that principal.
pub fn transfer_message(amount: u64, to_principal: &[u8]) -> (hex: String)
    requires
        to_principal@.len() <= max_principal_len(),
    ensures
        hex@ == hex_encoding(transfer_tag() + decimal_text(amount as nat) + separator() + encode_utf8(principal_text(to_principal@))),
        command_of(hex_decoding(encode_utf8(hex@))->0) == CommandView::Transfer(amount, to_principal@),
{
    let digits = format_decimal(amount);
    let text = principal_text_bytes(to_principal);
    let head = join("TRANSFER::".as_bytes(), digits.as_slice());
    let with_separator = join(head.as_slice(), "::".as_bytes());
    let message = join(with_separator.as_slice(), text.as_slice());
    proof {
        lemma_tags();
        lemma_decimal_roundtrip(amount as nat);
        lemma_hex_roundtrip(message@);
        let tag = transfer_tag();
        let d = digits@;
        let t = text@;
        assert(message@ =~= tag + d + separator() + t);
        assert(is_ascii_bytes(message@)) by {
            assert forall|i: int| 0 <= i < message@.len() implies #[trigger] message@[i] <= 0x7f by {
                if i < tag.len() {
                    assert(message@[i] == tag[i]);
                } else if i < tag.len() + d.len() {
                    assert(message@[i] == d[i - tag.len()]);
                    assert(crate::codec::is_digit(d[i - tag.len()]));
                } else if i < tag.len() + d.len() + 2 {
                } else {
                    assert(message@[i] == t[i - tag.len() - d.len() - 2]);
                }
            }
        }
        lemma_ascii_valid(message@);
        assert(message@.take(tag.len() as int) =~= tag);
        lemma_not_prefix(message@, add_signer_tag());
        lemma_not_prefix(message@, remove_signer_tag());
        lemma_not_prefix(message@, set_threshold_tag());
        let rest = message@.skip(tag.len() as int);
        assert(rest =~= d + separator() + t);
        assert forall|j: int| 0 <= j < d.len() implies !crate::codec::is_separator_at(rest, j) by {
            assert(rest[j] == d[j]);
            assert(crate::codec::is_digit(d[j]));
        }
        crate::codec::lemma_separator_index(rest, d.len() as int);
        assert(crate::codec::is_separator_at(rest, d.len() as int));
        assert(separator_index(rest) == Some(d.len() as int));
        assert(rest.take(d.len() as int) =~= d);
        let tail = rest.skip(d.len() as int + 2);
        assert(tail =~= t);
        assert forall|j: int| 0 <= j < tail.len() implies !crate::codec::is_separator_at(tail, j) by {
            assert(tail[j] == t[j]);
        }
        crate::codec::lemma_separator_index(tail, 0);
        assert(decimal_parse(d, u64::MAX as nat) == Some(amount as nat));
    }
    hex_encode(message.as_slice())
}

} // verus!
