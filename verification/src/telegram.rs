//! The notification channel: one text message for each buy or sell.

use crate::number::{integer_text, push_integer};
use crate::time::{local_time, local_time_text};
use crate::trading::Signal;
use vstd::prelude::*;
use vstd::string::StringExecFns;

verus! {

/// How far ahead of Greenwich the clock of the messages runs, in seconds.
pub const MESSAGE_OFFSET: i32 = 3;

/// The words that name a signal.
pub open spec fn signal_words(signal: Signal) -> Seq<char> {
    match signal {
        Signal::Buy(_) => " Buy Signal"@,
        Signal::Sell => " Sell Signal"@,
    }
}

/// The message for a signal: the time in brackets, the symbol, and the words
/// for the signal.
pub open spec fn message_text(time: Seq<char>, symbol: Seq<char>, signal: Signal) -> Seq<char> {
    "["@ + time + "] "@ + symbol + signal_words(signal)
}

/// Writes the message for a signal on `symbol` at a time given as text.
pub fn compose_message(time: &str, symbol: &str, signal: Signal) -> (r: String)
    ensures
        r@ == message_text(time@, symbol@, signal),
{
    let mut out = String::from_str("[");
    out.append(time);
    out.append("] ");
    out.append(symbol);
    match signal {
        Signal::Buy(_) => {
            out.append(" Buy Signal");
        },
        Signal::Sell => {
            out.append(" Sell Signal");
        },
    }
    assert(out@ =~= message_text(time@, symbol@, signal));
    out
}

/// Writes the message for a signal on `symbol` from the candle that opened
/// at `open_time`.  There is no message for a time that the calendar cannot
/// hold.
pub fn signal_message(symbol: &str, open_time: i64, signal: Signal) -> (r: Option<String>)
    ensures
        match local_time_text(open_time, MESSAGE_OFFSET) {
            Some(time) => r matches Some(message) && message@ == message_text(
                time,
                symbol@,
                signal,
            ),
            None => r.is_none(),
        },
{
    match local_time(open_time, MESSAGE_OFFSET) {
        Some(time) => Some(compose_message(time.as_str(), symbol, signal)),
        None => None,
    }
}

/// The address that sends `message` to the chat `chat_id` through the bot
/// at `api_url`.
pub open spec fn send_text(api_url: Seq<char>, chat_id: i32, message: Seq<char>) -> Seq<char> {
    api_url + "/sendMessage?chat_id="@ + integer_text(chat_id as int) + "&text="@ + message
}

/// Writes the address that sends a message.
pub fn send_message_url(api_url: &str, chat_id: i32, message: &str) -> (r: String)
    ensures
        r@ == send_text(api_url@, chat_id, message@),
{
    let mut url = String::from_str(api_url);
    url.append("/sendMessage?chat_id=");
    push_integer(&mut url, chat_id as i64);
    url.append("&text=");
    url.append(message);
    assert(url@ =~= send_text(api_url@, chat_id, message@));
    url
}

} // verus!
