//! The connectivity block: compact tokens or labelled fields built from a
//! passive network snapshot.

use vstd::prelude::*;
use crate::config::{ConnectivityConfig, ConnectivityFormat};
use crate::network::{
    dns_compact_label, dns_full_label, kind_compact_label, kind_full_label, ConnectivitySnapshot,
};
use crate::text::{join, join_strings, push_text, string_from, string_views};

verus! {

/// The compact tokens, in order: the kind and name joined by `:` (or
/// `no-iface`), the route and DNS tokens, and last `down` when the primary
/// interface's link is down.
pub open spec fn compact_tokens(c: ConnectivityConfig, s: ConnectivitySnapshot) -> Seq<Seq<char>> {
    let t0: Seq<Seq<char>> = match s.primary_iface {
        Some(iface) => {
            let h0: Seq<Seq<char>> = if c.show_kind {
                seq![kind_compact_label(iface.kind)]
            } else {
                seq![]
            };
            let head = if c.show_iface {
                h0.push(iface.name@)
            } else {
                h0
            };
            if head.len() > 0 {
                seq![join(head, ":"@)]
            } else {
                seq![]
            }
        },
        None => seq!["no-iface"@],
    };
    let t1 = if c.show_route {
        t0.push(
            if s.has_default_route {
                "gw"@
            } else {
                "no-gw"@
            },
        )
    } else {
        t0
    };
    let t2 = if c.show_dns {
        t1.push(dns_compact_label(s.dns_state))
    } else {
        t1
    };
    match s.primary_iface {
        Some(iface) => if !iface.link_up {
            t2.push("down"@)
        } else {
            t2
        },
        None => t2,
    }
}

/// The labelled fields, in order.
pub open spec fn full_tokens(c: ConnectivityConfig, s: ConnectivitySnapshot) -> Seq<Seq<char>> {
    let t0: Seq<Seq<char>> = match s.primary_iface {
        Some(iface) => {
            let a: Seq<Seq<char>> = if c.show_kind {
                seq!["kind:"@ + kind_full_label(iface.kind)]
            } else {
                seq![]
            };
            let b = if c.show_iface {
                a.push("iface:"@ + iface.name@)
            } else {
                a
            };
            b.push(
                "link:"@ + if iface.link_up {
                    "up"@
                } else {
                    "down"@
                },
            )
        },
        None => seq!["iface:none"@],
    };
    let t1 = if c.show_route {
        t0.push(
            "route:"@ + if s.has_default_route {
                "yes"@
            } else {
                "no"@
            },
        )
    } else {
        t0
    };
    if c.show_dns {
        t1.push("dns:"@ + dns_full_label(s.dns_state))
    } else {
        t1
    }
}

/// The whole block: glyph, then the tokens of the configured layout
/// separated by single spaces.
pub open spec fn connectivity_output(c: ConnectivityConfig, s: ConnectivitySnapshot) -> Seq<char> {
    c.glyph@ + join(
        match c.format {
            ConnectivityFormat::Compact => compact_tokens(c, s),
            ConnectivityFormat::Full => full_tokens(c, s),
        },
        " "@,
    )
}

/// Push one string onto a list, keeping track of the views.
fn push_token(v: &mut Vec<String>, t: String)
    ensures
        string_views(final(v)@) == string_views(old(v)@).push(t@),
{
    let ghost before = string_views(v@);
    let ghost tv = t@;
    v.push(t);
    assert(string_views(v@) =~= before.push(tv));
}

/// Dense tokens for a narrow bar.
pub fn to_compact_output(config: &ConnectivityConfig, snapshot: &ConnectivitySnapshot) -> (r: String)
    ensures
        r@ == join(compact_tokens(*config, *snapshot), " "@),
{
    let mut output: Vec<String> = Vec::new();
    match &snapshot.primary_iface {
        Some(iface) => {
            let mut head: Vec<String> = Vec::new();
            if config.show_kind {
                push_token(&mut head, string_from(iface.kind.compact_label()));
            }
            if config.show_iface {
                push_token(&mut head, iface.name.clone());
            }
            let ghost h0: Seq<Seq<char>> = if config.show_kind {
                seq![kind_compact_label(iface.kind)]
            } else {
                seq![]
            };
            let ghost hs = if config.show_iface {
                h0.push(iface.name@)
            } else {
                h0
            };
            assert(string_views(head@) =~= hs);
            if head.len() > 0 {
                push_token(&mut output, join_strings(&head, ":"));
            }
            let ghost a: Seq<Seq<char>> = if hs.len() > 0 {
                seq![join(hs, ":"@)]
            } else {
                seq![]
            };
            assert(string_views(output@) =~= a);
        },
        None => {
            push_token(&mut output, string_from("no-iface"));
        },
    }
    if config.show_route {
        if snapshot.has_default_route {
            push_token(&mut output, string_from("gw"));
        } else {
            push_token(&mut output, string_from("no-gw"));
        }
    }
    if config.show_dns {
        push_token(&mut output, string_from(snapshot.dns_state.compact_label()));
    }
    if let Some(iface) = &snapshot.primary_iface {
        if !iface.link_up {
            push_token(&mut output, string_from("down"));
        }
    }
    assert(string_views(output@) =~= compact_tokens(*config, *snapshot));
    join_strings(&output, " ")
}

/// Labeled fields for wider bars.
pub fn to_full_output(config: &ConnectivityConfig, snapshot: &ConnectivitySnapshot) -> (r: String)
    ensures
        r@ == join(full_tokens(*config, *snapshot), " "@),
{
    let mut output: Vec<String> = Vec::new();
    match &snapshot.primary_iface {
        Some(iface) => {
            if config.show_kind {
                let mut t = string_from("kind:");
                push_text(&mut t, iface.kind.full_label());
                push_token(&mut output, t);
            }
            if config.show_iface {
                let mut t = string_from("iface:");
                push_text(&mut t, iface.name.as_str());
                push_token(&mut output, t);
            }
            let mut t = string_from("link:");
            push_text(
                &mut t,
                if iface.link_up {
                    "up"
                } else {
                    "down"
                },
            );
            push_token(&mut output, t);
        },
        None => {
            push_token(&mut output, string_from("iface:none"));
        },
    }
    if config.show_route {
        let mut t = string_from("route:");
        push_text(
            &mut t,
            if snapshot.has_default_route {
                "yes"
            } else {
                "no"
            },
        );
        push_token(&mut output, t);
    }
    if config.show_dns {
        let mut t = string_from("dns:");
        push_text(&mut t, snapshot.dns_state.full_label());
        push_token(&mut output, t);
    }
    assert(string_views(output@) =~= full_tokens(*config, *snapshot));
    join_strings(&output, " ")
}

/// Select the configured layout.
pub fn format_connectivity_output(config: &ConnectivityConfig, snapshot: &ConnectivitySnapshot) -> (r:
    String)
    ensures
        r@ == connectivity_output(*config, *snapshot),
{
    let body = match config.format {
        ConnectivityFormat::Compact => to_compact_output(config, snapshot),
        ConnectivityFormat::Full => to_full_output(config, snapshot),
    };
    let mut out = string_from(config.glyph.as_str());
    push_text(&mut out, body.as_str());
    out
}

} // verus!
