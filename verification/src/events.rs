//! Audit records for settled purchases.
//!
//! A settlement produces an [`EventLog`]; the host appends its rendering
//! (see [`EventLog::to_log_string`]) to the external log. The rendered form
//! is a versioned, machine-parseable line
//! `EVENT_JSON:{"standard":"<ver>","event":"purchase","data":[...]}` whose
//! exact shape is part of the engine's public contract: external consumers
//! parse these lines.

use vstd::prelude::*;

verus! {

/// One purchased item inside an audit record.
#[derive(Debug)]
pub struct PurchaseProduct {
    /// Identifier of the purchased product.
    pub owner_id: String,
    /// The product's description at settlement time.
    pub product_info: String,
    /// The price that was paid.
    pub price: u128,
    /// Optional free-form note; omitted from the rendering when absent.
    pub memo: Option<String>,
}

/// The kind of an audit record.
#[derive(Debug)]
pub enum EventLogVariant {
    /// A settled purchase, with the items bought.
    Purchase(Vec<PurchaseProduct>),
}

/// A versioned audit record.
#[derive(Debug)]
pub struct EventLog {
    /// Version tag of the record format.
    pub standard: String,
    /// The event proper.
    pub event: EventLogVariant,
}

/// Mathematical image of a [`PurchaseProduct`].
#[verifier::ext_equal]
pub struct PurchaseProductView {
    pub owner_id: Seq<char>,
    pub product_info: Seq<char>,
    pub price: u128,
    pub memo: Option<Seq<char>>,
}

/// Mathematical image of an [`EventLogVariant`].
#[verifier::ext_equal]
pub enum EventLogVariantView {
    Purchase(Seq<PurchaseProductView>),
}

/// Mathematical image of an [`EventLog`].
#[verifier::ext_equal]
pub struct EventLogView {
    pub standard: Seq<char>,
    pub event: EventLogVariantView,
}

impl View for PurchaseProduct {
    type V = PurchaseProductView;

    open spec fn view(&self) -> PurchaseProductView {
        PurchaseProductView {
            owner_id: self.owner_id@,
            product_info: self.product_info@,
            price: self.price,
            memo: match self.memo {
                Some(m) => Some(m@),
                None => None,
            },
        }
    }
}

impl DeepView for PurchaseProduct {
    type V = PurchaseProductView;

    open spec fn deep_view(&self) -> PurchaseProductView {
        self@
    }
}

impl View for EventLog {
    type V = EventLogView;

    open spec fn view(&self) -> EventLogView {
        EventLogView {
            standard: self.standard@,
            event: match self.event {
                EventLogVariant::Purchase(items) => EventLogVariantView::Purchase(
                    items.deep_view(),
                ),
            },
        }
    }
}

/// The hexadecimal digit for `n` (meaningful for `0 <= n < 16`).
pub open spec fn hex_digit_char(n: int) -> char {
    if n == 0 {
        '0'
    } else if n == 1 {
        '1'
    } else if n == 2 {
        '2'
    } else if n == 3 {
        '3'
    } else if n == 4 {
        '4'
    } else if n == 5 {
        '5'
    } else if n == 6 {
        '6'
    } else if n == 7 {
        '7'
    } else if n == 8 {
        '8'
    } else if n == 9 {
        '9'
    } else if n == 10 {
        'a'
    } else if n == 11 {
        'b'
    } else if n == 12 {
        'c'
    } else if n == 13 {
        'd'
    } else if n == 14 {
        'e'
    } else {
        'f'
    }
}

/// How one character is written inside a JSON string: quote and backslash
/// escaped, the common control characters in their short forms, the rest of
/// the control range as `\u00XX`, everything else verbatim.
pub open spec fn json_escape_char(c: char) -> Seq<char> {
    if c == '"' {
        seq!['\\', '"']
    } else if c == '\\' {
        seq!['\\', '\\']
    } else if c == '\n' {
        seq!['\\', 'n']
    } else if c == '\r' {
        seq!['\\', 'r']
    } else if c == '\t' {
        seq!['\\', 't']
    } else if c == '\u{8}' {
        seq!['\\', 'b']
    } else if c == '\u{c}' {
        seq!['\\', 'f']
    } else if (c as u32) < 0x20 {
        seq!['\\', 'u', '0', '0', hex_digit_char((c as u32) as int / 16), hex_digit_char(
            (c as u32) as int % 16,
        )]
    } else {
        seq![c]
    }
}

/// A whole string escaped for JSON, character by character.
pub open spec fn json_escaped(s: Seq<char>) -> Seq<char>
    decreases s.len(),
{
    if s.len() == 0 {
        Seq::<char>::empty()
    } else {
        json_escaped(s.drop_last()) + json_escape_char(s.last())
    }
}

/// The decimal digit for `n` (meaningful for `0 <= n < 10`).
pub open spec fn dec_digit_char(n: int) -> char {
    if n == 0 {
        '0'
    } else if n == 1 {
        '1'
    } else if n == 2 {
        '2'
    } else if n == 3 {
        '3'
    } else if n == 4 {
        '4'
    } else if n == 5 {
        '5'
    } else if n == 6 {
        '6'
    } else if n == 7 {
        '7'
    } else if n == 8 {
        '8'
    } else {
        '9'
    }
}

/// The decimal rendering of `n`, most significant digit first, no leading
/// zeros (meaningful for `n >= 0`).
pub open spec fn dec_str_of(n: int) -> Seq<char>
    decreases n,
{
    if n < 10 {
        seq![dec_digit_char(n)]
    } else {
        dec_str_of(n / 10) + seq![dec_digit_char(n % 10)]
    }
}

/// The JSON object for one purchased item. The `memo` member is written only
/// when a memo is present.
pub open spec fn purchase_product_json(p: PurchaseProductView) -> Seq<char> {
    "{\"owner_id\":\""@ + json_escaped(p.owner_id) + "\",\"product_info\":\""@ + json_escaped(
        p.product_info,
    ) + "\",\"price\":"@ + dec_str_of(p.price as int) + (match p.memo {
        Some(m) => ",\"memo\":\""@ + json_escaped(m) + "\""@,
        None => Seq::<char>::empty(),
    }) + "}"@
}

/// The comma-separated JSON array body for the purchased items.
pub open spec fn purchase_list_json(items: Seq<PurchaseProductView>) -> Seq<char>
    decreases items.len(),
{
    if items.len() == 0 {
        Seq::<char>::empty()
    } else if items.len() == 1 {
        purchase_product_json(items[0])
    } else {
        purchase_list_json(items.drop_last()) + ","@ + purchase_product_json(items.last())
    }
}

/// The full audit line for an event: the `EVENT_JSON:` sentinel followed by
/// the versioned JSON object external log consumers parse.
pub open spec fn event_log_line(e: EventLogView) -> Seq<char> {
    "EVENT_JSON:{\"standard\":\""@ + json_escaped(e.standard)
        + "\",\"event\":\"purchase\",\"data\":["@ + (match e.event {
        EventLogVariantView::Purchase(items) => purchase_list_json(items),
    }) + "]}"@
}

/// Appends the hexadecimal digit for `d`.
fn append_hex_digit(out: &mut String, d: u8)
    requires
        d < 16,
    ensures
        final(out)@ == old(out)@ + seq![hex_digit_char(d as int)],
{
    proof {
        reveal_strlit("0");
        reveal_strlit("1");
        reveal_strlit("2");
        reveal_strlit("3");
        reveal_strlit("4");
        reveal_strlit("5");
        reveal_strlit("6");
        reveal_strlit("7");
        reveal_strlit("8");
        reveal_strlit("9");
        reveal_strlit("a");
        reveal_strlit("b");
        reveal_strlit("c");
        reveal_strlit("d");
        reveal_strlit("e");
        reveal_strlit("f");
    }
    match d {
        0 => out.append("0"),
        1 => out.append("1"),
        2 => out.append("2"),
        3 => out.append("3"),
        4 => out.append("4"),
        5 => out.append("5"),
        6 => out.append("6"),
        7 => out.append("7"),
        8 => out.append("8"),
        9 => out.append("9"),
        10 => out.append("a"),
        11 => out.append("b"),
        12 => out.append("c"),
        13 => out.append("d"),
        14 => out.append("e"),
        _ => out.append("f"),
    }
}

/// Appends the decimal digit for `d`.
fn append_dec_digit(out: &mut String, d: u8)
    requires
        d < 10,
    ensures
        final(out)@ == old(out)@ + seq![dec_digit_char(d as int)],
{
    proof {
        reveal_strlit("0");
        reveal_strlit("1");
        reveal_strlit("2");
        reveal_strlit("3");
        reveal_strlit("4");
        reveal_strlit("5");
        reveal_strlit("6");
        reveal_strlit("7");
        reveal_strlit("8");
        reveal_strlit("9");
    }
    match d {
        0 => out.append("0"),
        1 => out.append("1"),
        2 => out.append("2"),
        3 => out.append("3"),
        4 => out.append("4"),
        5 => out.append("5"),
        6 => out.append("6"),
        7 => out.append("7"),
        8 => out.append("8"),
        _ => out.append("9"),
    }
}

/// Appends the decimal rendering of `n`.
fn append_dec(out: &mut String, n: u128)
    ensures
        final(out)@ == old(out)@ + dec_str_of(n as int),
    decreases n,
{
    if n < 10 {
        append_dec_digit(out, n as u8);
    } else {
        let q = n / 10;
        let r = (n % 10) as u8;
        append_dec(out, q);
        append_dec_digit(out, r);
        proof {
            assert(out@ =~= old(out)@ + dec_str_of(n as int));
        }
    }
}

/// Appends `s` escaped for the inside of a JSON string.
fn append_json_escaped(out: &mut String, s: &str)
    ensures
        final(out)@ == old(out)@ + json_escaped(s@),
{
    let n = s.unicode_len();
    proof {
        assert(s@.subrange(0, 0) =~= Seq::<char>::empty());
    }
    for i in 0..n
        invariant
            n == s@.len(),
            out@ == old(out)@ + json_escaped(s@.subrange(0, i as int)),
    {
        let c = s.get_char(i);
        if c == '"' {
            proof {
                reveal_strlit("\\\"");
            }
            out.append("\\\"");
        } else if c == '\\' {
            proof {
                reveal_strlit("\\\\");
            }
            out.append("\\\\");
        } else if c == '\n' {
            proof {
                reveal_strlit("\\n");
            }
            out.append("\\n");
        } else if c == '\r' {
            proof {
                reveal_strlit("\\r");
            }
            out.append("\\r");
        } else if c == '\t' {
            proof {
                reveal_strlit("\\t");
            }
            out.append("\\t");
        } else if c == '\u{8}' {
            proof {
                reveal_strlit("\\b");
            }
            out.append("\\b");
        } else if c == '\u{c}' {
            proof {
                reveal_strlit("\\f");
            }
            out.append("\\f");
        } else if (c as u32) < 0x20 {
            proof {
                reveal_strlit("\\u00");
            }
            out.append("\\u00");
            let v = c as u32;
            append_hex_digit(out, (v / 16) as u8);
            append_hex_digit(out, (v % 16) as u8);
        } else {
            let piece = s.substring_char(i, i + 1);
            proof {
                assert(piece@ =~= seq![c]);
            }
            out.append(piece);
        }
        proof {
            assert(s@.subrange(0, i as int + 1).drop_last() =~= s@.subrange(0, i as int));
            assert(s@.subrange(0, i as int + 1).last() == c);
            assert(out@ =~= old(out)@ + json_escaped(s@.subrange(0, i as int + 1)));
        }
    }
    proof {
        assert(s@.subrange(0, n as int) =~= s@);
    }
}

/// Appends the JSON object for one purchased item.
fn append_purchase_product(out: &mut String, p: &PurchaseProduct)
    ensures
        final(out)@ == old(out)@ + purchase_product_json(p@),
{
    out.append("{\"owner_id\":\"");
    append_json_escaped(out, p.owner_id.as_str());
    out.append("\",\"product_info\":\"");
    append_json_escaped(out, p.product_info.as_str());
    out.append("\",\"price\":");
    append_dec(out, p.price);
    match &p.memo {
        Some(m) => {
            out.append(",\"memo\":\"");
            append_json_escaped(out, m.as_str());
            out.append("\"");
        },
        None => {},
    }
    out.append("}");
    proof {
        assert(out@ =~= old(out)@ + purchase_product_json(p@));
    }
}

impl EventLog {
    /// Renders the audit line the host appends to the external log. The
    /// format is pinned by [`event_log_line`]: stable for external parsers.
    pub fn to_log_string(&self) -> (r: String)
        ensures
            r@ == event_log_line(self@),
    {
        let mut out = String::new();
        out.append("EVENT_JSON:{\"standard\":\"");
        append_json_escaped(&mut out, self.standard.as_str());
        out.append("\",\"event\":\"purchase\",\"data\":[");
        let ghost prefix = out@;
        match &self.event {
            EventLogVariant::Purchase(items) => {
                let n = items.len();
                proof {
                    assert(items.deep_view().subrange(0, 0) =~= Seq::<
                        PurchaseProductView,
                    >::empty());
                }
                for i in 0..n
                    invariant
                        n == items@.len(),
                        out@ == prefix + purchase_list_json(items.deep_view().subrange(0, i as int)),
                {
                    if i > 0 {
                        proof {
                            reveal_strlit(",");
                        }
                        out.append(",");
                    }
                    append_purchase_product(&mut out, &items[i]);
                    proof {
                        let dv = items.deep_view();
                        assert(dv.subrange(0, i as int + 1).drop_last() =~= dv.subrange(
                            0,
                            i as int,
                        ));
                        assert(dv.subrange(0, i as int + 1).last() == dv[i as int]);
                        assert(items@[i as int].deep_view() == dv[i as int]);
                        assert(out@ =~= prefix + purchase_list_json(dv.subrange(0, i as int + 1)));
                    }
                }
                proof {
                    assert(items.deep_view().subrange(0, n as int) =~= items.deep_view());
                }
            },
        }
        out.append("]}");
        proof {
            assert(out@ =~= event_log_line(self@));
        }
        out
    }
}

} // verus!
