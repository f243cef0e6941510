//! The texts the notifier produces: decimal numbers, store links and the
//! announcement of a free offer.
use vstd::prelude::*;

verus! {

/// The character of a decimal digit.
pub open spec fn digit_char(d: int) -> char {
    if d == 0 {
        '0'
    } else if d == 1 {
        '1'
    } else if d == 2 {
        '2'
    } else if d == 3 {
        '3'
    } else if d == 4 {
        '4'
    } else if d == 5 {
        '5'
    } else if d == 6 {
        '6'
    } else if d == 7 {
        '7'
    } else if d == 8 {
        '8'
    } else {
        '9'
    }
}

/// The decimal digits of `n`, most significant first, without leading zeros
/// (zero itself is written `0`).
pub open spec fn digits(n: nat) -> Seq<char>
    decreases n,
{
    if n < 10 {
        seq![digit_char(n as int)]
    } else {
        digits(n / 10).push(digit_char((n % 10) as int))
    }
}

/// The decimal notation of an integer, with a leading `-` when it is negative.
pub open spec fn decimal(i: int) -> Seq<char> {
    if i < 0 {
        seq!['-'] + digits((-i) as nat)
    } else {
        digits(i as nat)
    }
}

fn digit_str(d: u64) -> (s: &'static str)
    requires
        d < 10,
    ensures
        s@ == seq![digit_char(d as int)],
{
    if d == 0 {
        proof {
            reveal_strlit("0");
        }
        assert("0"@ =~= seq!['0']);
        "0"
    } else if d == 1 {
        proof {
            reveal_strlit("1");
        }
        assert("1"@ =~= seq!['1']);
        "1"
    } else if d == 2 {
        proof {
            reveal_strlit("2");
        }
        assert("2"@ =~= seq!['2']);
        "2"
    } else if d == 3 {
        proof {
            reveal_strlit("3");
        }
        assert("3"@ =~= seq!['3']);
        "3"
    } else if d == 4 {
        proof {
            reveal_strlit("4");
        }
        assert("4"@ =~= seq!['4']);
        "4"
    } else if d == 5 {
        proof {
            reveal_strlit("5");
        }
        assert("5"@ =~= seq!['5']);
        "5"
    } else if d == 6 {
        proof {
            reveal_strlit("6");
        }
        assert("6"@ =~= seq!['6']);
        "6"
    } else if d == 7 {
        proof {
            reveal_strlit("7");
        }
        assert("7"@ =~= seq!['7']);
        "7"
    } else if d == 8 {
        proof {
            reveal_strlit("8");
        }
        assert("8"@ =~= seq!['8']);
        "8"
    } else {
        proof {
            reveal_strlit("9");
        }
        assert("9"@ =~= seq!['9']);
        "9"
    }
}

fn append_digits(s: &mut String, n: u64)
    ensures
        final(s)@ == old(s)@ + digits(n as nat),
    decreases n,
{
    if n >= 10 {
        append_digits(s, n / 10);
    }
    s.append(digit_str(n % 10));
    proof {
        if n >= 10 {
            assert(old(s)@ + digits(n as nat) =~= old(s)@ + digits((n / 10) as nat) + seq![
                digit_char((n % 10) as int),
            ]);
        }
    }
}

/// Writes an integer in decimal, as `i64`'s `Display` does.
pub fn decimal_string(i: i64) -> (r: String)
    ensures
        r@ == decimal(i as int),
{
    if i < 0 {
        let mut s = String::from_str("-");
        proof {
            reveal_strlit("-");
        }
        assert("-"@ =~= seq!['-']);
        let magnitude: u64 = (-(i as i128)) as u64;
        append_digits(&mut s, magnitude);
        s
    } else {
        let mut s = String::new();
        append_digits(&mut s, i as u64);
        assert(s@ =~= decimal(i as int));
        s
    }
}

/// The store page of a bundle.
pub open spec fn bundle_link(slug: Seq<char>) -> Seq<char> {
    "https://store.epicgames.com/en-US/bundles/"@ + slug
}

/// The store page of a product.
pub open spec fn product_link(slug: Seq<char>) -> Seq<char> {
    "https://www.epicgames.com/store/en-US/p/"@ + slug
}

/// The store page for a slug: the bundle page for bundles, the product page
/// otherwise.
pub open spec fn link_for(slug: Seq<char>, bundle: bool) -> Seq<char> {
    if bundle {
        bundle_link(slug)
    } else {
        product_link(slug)
    }
}

/// Builds the store page for a slug.
pub fn store_link(slug: &str, bundle: bool) -> (r: String)
    ensures
        r@ == link_for(slug@, bundle),
{
    let mut s = if bundle {
        String::from_str("https://store.epicgames.com/en-US/bundles/")
    } else {
        String::from_str("https://www.epicgames.com/store/en-US/p/")
    };
    s.append(slug);
    s
}

/// The announcement of a free offer, with a Discord relative timestamp for
/// the end of the promotion.
pub open spec fn notice_text(
    title: Seq<char>,
    source: Seq<char>,
    ends_at: int,
    link: Seq<char>,
) -> Seq<char> {
    "**"@ + title + "** is now free on "@ + source + "! Ends <t:"@ + decimal(ends_at) + ":R>\n"@
        + link
}

/// Builds the announcement of a free offer.
pub fn notice_message(title: &str, source: &str, ends_at: i64, link: &str) -> (r: String)
    ensures
        r@ == notice_text(title@, source@, ends_at as int, link@),
{
    let mut s = String::from_str("**");
    s.append(title);
    s.append("** is now free on ");
    s.append(source);
    s.append("! Ends <t:");
    let number = decimal_string(ends_at);
    s.append(number.as_str());
    s.append(":R>\n");
    s.append(link);
    s
}

} // verus!
