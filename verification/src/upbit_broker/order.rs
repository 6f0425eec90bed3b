//! The rules of an order.

use vstd::prelude::*;
use vstd::string::*;

use crate::text::{ascii_lower, outcome, same_text, to_ascii_lower};

verus! {

/// Whether the amounts of an order are positive finite numbers. What number a
/// text stands for is for the caller to say.
#[derive(Debug, Clone, Copy, PartialEq, Eq, Structural)]
pub struct PositiveAmounts {
    pub volume: bool,
    pub price: bool,
}

pub open spec fn lower_option(text: Option<Seq<char>>) -> Option<Seq<char>> {
    match text {
        Some(text) => Some(ascii_lower(text)),
        None => None,
    }
}

fn lower_text(text: Option<&str>) -> (out: Option<String>)
    ensures
        out.deep_view() == lower_option(text.deep_view()),
{
    match text {
        Some(text) => Some(to_ascii_lower(text)),
        None => None,
    }
}

/// How long an order stays: what may be said, and for which orders.
pub open spec fn lifetime_checked(
    ord_type: Seq<char>,
    time_in_force: Option<Seq<char>>,
) -> Result<(), Seq<char>> {
    match time_in_force {
        None => Ok(()),
        Some(tif) => if tif != "ioc"@ && tif != "fok"@ && tif != "post_only"@ {
            Err("time_in_force must be ioc, fok, or post_only."@)
        } else if ord_type == "price"@ || ord_type == "market"@ {
            Err("time_in_force is only supported for limit/best orders."@)
        } else {
            Ok(())
        },
    }
}

/// What happens when an order would match one of the same account.
pub open spec fn self_match_checked(
    time_in_force: Option<Seq<char>>,
    smp_type: Option<Seq<char>>,
) -> Result<(), Seq<char>> {
    match smp_type {
        None => Ok(()),
        Some(smp) => if smp != "cancel_maker"@ && smp != "cancel_taker"@ && smp != "reduce"@ {
            Err("smp_type must be cancel_maker, cancel_taker, or reduce."@)
        } else if time_in_force == Some("post_only"@) {
            Err("post_only cannot be used together with smp_type."@)
        } else {
            Ok(())
        },
    }
}

/// Whether an order is filled at once or not at all.
pub open spec fn is_immediate(time_in_force: Option<Seq<char>>) -> bool {
    time_in_force == Some("ioc"@) || time_in_force == Some("fok"@)
}

/// The amounts that an order of a kind names, and those that it must not name.
/// `volume` and `price` say whether the amount is given, `positive` whether a
/// given amount is a positive number.
pub open spec fn amounts_checked(
    side: Seq<char>,
    ord_type: Seq<char>,
    volume: bool,
    price: bool,
    positive: PositiveAmounts,
    time_in_force: Option<Seq<char>>,
) -> Result<(), Seq<char>> {
    let good_volume = volume && positive.volume;
    let good_price = price && positive.price;
    if ord_type == "limit"@ {
        if !good_volume {
            Err("limit order requires positive volume."@)
        } else if !good_price {
            Err("limit order requires positive price."@)
        } else {
            Ok(())
        }
    } else if side == "bid"@ && ord_type == "price"@ {
        if !good_price {
            Err("market buy (ord_type=price) requires positive price."@)
        } else if volume {
            Err("market buy (ord_type=price) must not include volume."@)
        } else {
            Ok(())
        }
    } else if side == "ask"@ && ord_type == "market"@ {
        if !good_volume {
            Err("market sell (ord_type=market) requires positive volume."@)
        } else if price {
            Err("market sell (ord_type=market) must not include price."@)
        } else {
            Ok(())
        }
    } else if side == "bid"@ && ord_type == "best"@ {
        if !good_price {
            Err("best bid order requires positive price."@)
        } else if volume {
            Err("best bid order must not include volume."@)
        } else if !is_immediate(time_in_force) {
            Err("best order requires time_in_force ioc or fok."@)
        } else {
            Ok(())
        }
    } else if side == "ask"@ && ord_type == "best"@ {
        if !good_volume {
            Err("best ask order requires positive volume."@)
        } else if price {
            Err("best ask order must not include price."@)
        } else if !is_immediate(time_in_force) {
            Err("best order requires time_in_force ioc or fok."@)
        } else {
            Ok(())
        }
    } else {
        Err(
            "unsupported side/ord_type combination: side="@ + side + ", ord_type="@ + ord_type,
        )
    }
}

/// The rules of an order, in the order in which they are checked. All words
/// count in any ASCII case.
pub open spec fn order_checked(
    side: Seq<char>,
    ord_type: Seq<char>,
    volume: bool,
    price: bool,
    time_in_force: Option<Seq<char>>,
    smp_type: Option<Seq<char>>,
    positive: PositiveAmounts,
) -> Result<(), Seq<char>> {
    let side = ascii_lower(side);
    let ord_type = ascii_lower(ord_type);
    let tif = lower_option(time_in_force);
    let smp = lower_option(smp_type);
    if side != "bid"@ && side != "ask"@ {
        Err("side must be bid or ask."@)
    } else if ord_type != "limit"@ && ord_type != "price"@ && ord_type != "market"@ && ord_type
        != "best"@ {
        Err("ord_type must be one of limit, price, market, best."@)
    } else {
        match lifetime_checked(ord_type, tif) {
            Err(message) => Err(message),
            Ok(_) => match self_match_checked(tif, smp) {
                Err(message) => Err(message),
                Ok(_) => amounts_checked(side, ord_type, volume, price, positive, tif),
            },
        }
    }
}

/// Whether an optional text is the given one.
fn is_text(text: &Option<String>, wanted: &str) -> (yes: bool)
    ensures
        yes == (text.deep_view() == Some(wanted@)),
{
    match text {
        Some(text) => same_text(text.as_str(), wanted),
        None => false,
    }
}

fn check_lifetime(ord_type: &str, tif: &Option<String>) -> (checked: Result<(), String>)
    ensures
        outcome(checked) == lifetime_checked(ord_type@, tif.deep_view()),
{
    if tif.is_none() {
        return Ok(());
    }
    if !is_text(tif, "ioc") && !is_text(tif, "fok") && !is_text(tif, "post_only") {
        return Err("time_in_force must be ioc, fok, or post_only.".to_owned());
    }
    if same_text(ord_type, "price") || same_text(ord_type, "market") {
        return Err("time_in_force is only supported for limit/best orders.".to_owned());
    }
    Ok(())
}

fn check_self_match(tif: &Option<String>, smp: &Option<String>) -> (checked: Result<(), String>)
    ensures
        outcome(checked) == self_match_checked(tif.deep_view(), smp.deep_view()),
{
    if smp.is_none() {
        return Ok(());
    }
    if !is_text(smp, "cancel_maker") && !is_text(smp, "cancel_taker") && !is_text(smp, "reduce") {
        return Err("smp_type must be cancel_maker, cancel_taker, or reduce.".to_owned());
    }
    if is_text(tif, "post_only") {
        return Err("post_only cannot be used together with smp_type.".to_owned());
    }
    Ok(())
}

fn check_amounts(
    side: &str,
    ord_type: &str,
    volume: bool,
    price: bool,
    positive: PositiveAmounts,
    tif: &Option<String>,
) -> (checked: Result<(), String>)
    ensures
        outcome(checked) == amounts_checked(
            side@,
            ord_type@,
            volume,
            price,
            positive,
            tif.deep_view(),
        ),
{
    let volume_present = volume && positive.volume;
    let price_present = price && positive.price;
    let bid = same_text(side, "bid");
    let ask = same_text(side, "ask");
    let immediate = is_text(tif, "ioc") || is_text(tif, "fok");
    if same_text(ord_type, "limit") {
        if !volume_present {
            return Err("limit order requires positive volume.".to_owned());
        }
        if !price_present {
            return Err("limit order requires positive price.".to_owned());
        }
    } else if bid && same_text(ord_type, "price") {
        if !price_present {
            return Err("market buy (ord_type=price) requires positive price.".to_owned());
        }
        if volume {
            return Err("market buy (ord_type=price) must not include volume.".to_owned());
        }
    } else if ask && same_text(ord_type, "market") {
        if !volume_present {
            return Err("market sell (ord_type=market) requires positive volume.".to_owned());
        }
        if price {
            return Err("market sell (ord_type=market) must not include price.".to_owned());
        }
    } else if bid && same_text(ord_type, "best") {
        if !price_present {
            return Err("best bid order requires positive price.".to_owned());
        }
        if volume {
            return Err("best bid order must not include volume.".to_owned());
        }
        if !immediate {
            return Err("best order requires time_in_force ioc or fok.".to_owned());
        }
    } else if ask && same_text(ord_type, "best") {
        if !volume_present {
            return Err("best ask order requires positive volume.".to_owned());
        }
        if price {
            return Err("best ask order must not include price.".to_owned());
        }
        if !immediate {
            return Err("best order requires time_in_force ioc or fok.".to_owned());
        }
    } else {
        return Err(
            "unsupported side/ord_type combination: side=".to_owned().concat(side).concat(
                ", ord_type=",
            ).concat(ord_type),
        );
    }
    Ok(())
}

/// Checks an order against the rules.
pub fn validate_order_payload(
    side: &str,
    ord_type: &str,
    volume: Option<&str>,
    price: Option<&str>,
    time_in_force: Option<&str>,
    smp_type: Option<&str>,
    positive: PositiveAmounts,
) -> (checked: Result<(), String>)
    ensures
        outcome(checked) == order_checked(
            side@,
            ord_type@,
            volume is Some,
            price is Some,
            time_in_force.deep_view(),
            smp_type.deep_view(),
            positive,
        ),
{
    let side = to_ascii_lower(side);
    let ord_type = to_ascii_lower(ord_type);
    let tif = lower_text(time_in_force);
    let smp = lower_text(smp_type);
    if !same_text(side.as_str(), "bid") && !same_text(side.as_str(), "ask") {
        return Err("side must be bid or ask.".to_owned());
    }
    if !same_text(ord_type.as_str(), "limit") && !same_text(ord_type.as_str(), "price")
        && !same_text(ord_type.as_str(), "market") && !same_text(ord_type.as_str(), "best") {
        return Err("ord_type must be one of limit, price, market, best.".to_owned());
    }
    match check_lifetime(ord_type.as_str(), &tif) {
        Err(message) => {
            return Err(message);
        },
        Ok(_) => {},
    }
    match check_self_match(&tif, &smp) {
        Err(message) => {
            return Err(message);
        },
        Ok(_) => {},
    }
    check_amounts(
        side.as_str(),
        ord_type.as_str(),
        volume.is_some(),
        price.is_some(),
        positive,
        &tif,
    )
}

} // verus!
