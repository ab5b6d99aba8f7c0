//! A greeting that follows the time of day.
use vstd::prelude::*;

use crate::text::push_str;

verus! {

/// An emoji and a greeting for the user.
pub struct Greeting {
    pub emoji: &'static str,
    pub text: String,
}

/// The greeting for `name` at hour `hour` of the day: good morning before
/// noon, good afternoon before six, good evening after.
pub open spec fn greeting_text(name: Seq<char>, hour: nat) -> Seq<char> {
    if hour < 12 {
        "Buenos d\u{ed}as, "@ + name
    } else if hour < 18 {
        "Buenas tardes, "@ + name
    } else {
        "Buenas noches, "@ + name
    }
}

/// The emoji for hour `hour`: sunrise, sun, or crescent moon.
pub open spec fn greeting_emoji(hour: nat) -> Seq<char> {
    if hour < 12 {
        "\u{1F305}"@
    } else if hour < 18 {
        "\u{2600}\u{FE0F}"@
    } else {
        "\u{1F319}"@
    }
}

/// The greeting for `name` at hour `hour`.
pub fn greeting_at(name: &str, hour: u32) -> (g: Greeting)
    ensures
        g.emoji@ == greeting_emoji(hour as nat),
        g.text@ == greeting_text(name@, hour as nat),
{
    if hour < 12 {
        let mut text = String::from_str("Buenos d\u{ed}as, ");
        push_str(&mut text, name);
        Greeting { emoji: "\u{1F305}", text }
    } else if hour < 18 {
        let mut text = String::from_str("Buenas tardes, ");
        push_str(&mut text, name);
        Greeting { emoji: "\u{2600}\u{FE0F}", text }
    } else {
        let mut text = String::from_str("Buenas noches, ");
        push_str(&mut text, name);
        Greeting { emoji: "\u{1F319}", text }
    }
}

/// `chrono::Timelike::hour` of `chrono::Local::now()`: the hour of the local
/// clock, which chrono documents as 0 to 23.
#[verifier::external_body]
fn local_hour() -> (h: u32)
    ensures
        h < 24,
{
    chrono::Timelike::hour(&chrono::Local::now())
}

/// The greeting for `name` now.
pub fn generate(name: &str) -> (g: Greeting)
    ensures
        exists|h: nat|
            h < 24 && g.emoji@ == greeting_emoji(h) && g.text@ == greeting_text(name@, h),
{
    let hour = local_hour();
    greeting_at(name, hour)
}

} // verus!
