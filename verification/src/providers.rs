//! The provider directory (named validators per provider and the cycle in
//! which each leaves) and the per-cycle offboarding notice rendered from it.

use vstd::prelude::*;
use vstd::string::StringExecFns;

use crate::text::{decimal, push_decimal};

verus! {

/// The provider directory.
pub struct Providers {
    pub meta: Meta,
    pub providers: Vec<Provider>,
}

/// Dates of the downsizing cycles, as displayed.
pub struct Meta {
    pub cycle_1: Option<String>,
    pub cycle_2: Option<String>,
    pub cycle_3: Option<String>,
    pub cycle_4: Option<String>,
}

/// One provider.
pub struct Provider {
    pub name: String,
    pub display: String,
    pub matrix: String,
    pub ibp: String,
    pub validators: Vec<Val>,
}

/// One validator of a provider.
pub struct Val {
    pub name: String,
    pub stash: String,
    /// "1".."4" for a downsize cycle, "floor" to survive to shutdown.
    pub cycle: String,
}

/// The validators leaving in the cycle named `key`, in order.
pub open spec fn cycle_vals(vs: Seq<Val>, key: Seq<char>) -> Seq<Val>
    decreases vs.len(),
{
    if vs.len() == 0 {
        Seq::empty()
    } else {
        let p = cycle_vals(vs.drop_last(), key);
        if vs.last().cycle@ == key {
            p.push(vs.last())
        } else {
            p
        }
    }
}

/// Providers with a Matrix handle and at least one validator leaving in
/// cycle `key`, with those validators.
pub open spec fn notice_rows(ps: Seq<Provider>, key: Seq<char>) -> Seq<(Provider, Seq<Val>)>
    decreases ps.len(),
{
    if ps.len() == 0 {
        Seq::empty()
    } else {
        let p = notice_rows(ps.drop_last(), key);
        let last = ps.last();
        let vs = cycle_vals(last.validators@, key);
        if last.matrix@.len() > 0 && vs.len() > 0 {
            p.push((last, vs))
        } else {
            p
        }
    }
}

/// Plain-text lines of a provider's leaving validators.
pub open spec fn text_vals(vs: Seq<Val>) -> Seq<char>
    decreases vs.len(),
{
    if vs.len() == 0 {
        Seq::empty()
    } else {
        text_vals(vs.drop_last()) + "    "@ + vs.last().name@ + "  "@ + vs.last().stash@ + "\n"@
    }
}

/// HTML items of a provider's leaving validators.
pub open spec fn html_vals(vs: Seq<Val>) -> Seq<char>
    decreases vs.len(),
{
    if vs.len() == 0 {
        Seq::empty()
    } else {
        html_vals(vs.drop_last()) + "<li>"@ + vs.last().name@ + " — <code>"@ + vs.last().stash@
            + "</code></li>"@
    }
}

/// Plain-text block of the rows.
pub open spec fn text_rows(rows: Seq<(Provider, Seq<Val>)>) -> Seq<char>
    decreases rows.len(),
{
    if rows.len() == 0 {
        Seq::empty()
    } else {
        let (p, vs) = rows.last();
        text_rows(rows.drop_last()) + "• "@ + p.matrix@ + " — "@ + p.display@ + " ("@ + decimal(
            vs.len(),
        ) + "):\n"@ + text_vals(vs)
    }
}

/// HTML block of the rows.
pub open spec fn html_rows(rows: Seq<(Provider, Seq<Val>)>) -> Seq<char>
    decreases rows.len(),
{
    if rows.len() == 0 {
        Seq::empty()
    } else {
        let (p, vs) = rows.last();
        html_rows(rows.drop_last()) + "<li><a href=\"https://matrix.to/#/"@ + p.matrix@ + "\">"@
            + p.matrix@ + "</a> — "@ + p.display@ + " ("@ + decimal(vs.len()) + "):<ul>"@
            + html_vals(vs) + "</ul></li>"@
    }
}

/// The date text of a cycle ("" when unknown).
pub open spec fn spec_cycle_dt(meta: Meta, cycle: u32) -> Seq<char> {
    let d = if cycle == 1 {
        meta.cycle_1
    } else if cycle == 2 {
        meta.cycle_2
    } else if cycle == 3 {
        meta.cycle_3
    } else if cycle == 4 {
        meta.cycle_4
    } else {
        None
    };
    match d {
        Some(s) => s@,
        None => Seq::empty(),
    }
}

/// The plain-text notice.
pub open spec fn notice_text(rows: Seq<(Provider, Seq<Val>)>, cycle: u32, dt: Seq<char>, from: u32, to: u32) -> Seq<char> {
    "🔻 Paseo relay downsizing — Cycle "@ + decimal(cycle as nat) + " of 4 · "@ + dt
        + " · validator set "@ + decimal(from as nat) + " → "@ + decimal(to as nat)
        + ".\nThese validators are being rotated out of the active set this cycle (force-unstaked, no slashing):\n\n"@
        + text_rows(rows)
        + "\nNo slashing — validators are cleanly removed. Chains stay live at a reduced cadence. Live status: https://paseo-downsizer.r0gue.io"@
}

/// The HTML notice.
pub open spec fn notice_html(rows: Seq<(Provider, Seq<Val>)>, cycle: u32, dt: Seq<char>, from: u32, to: u32) -> Seq<char> {
    "<b>🔻 Paseo relay downsizing — Cycle "@ + decimal(cycle as nat) + " of 4</b> · "@ + dt
        + " · validator set "@ + decimal(from as nat) + " → "@ + decimal(to as nat)
        + ".<br/>These validators are being rotated out this cycle (force-unstaked, no slashing):<ul>"@
        + html_rows(rows) + "</ul>"@
        + "No slashing — validators are cleanly removed. Chains stay live at a reduced cadence. <a href=\"https://paseo-downsizer.r0gue.io\">Live status</a>."@
}

fn opt_text(o: &Option<String>) -> (r: &str)
    ensures
        r@ == match o {
            Some(s) => s@,
            None => Seq::empty(),
        },
{
    match o {
        Some(s) => s.as_str(),
        None => {
            proof {
                reveal_strlit("");
            }
            ""
        },
    }
}

impl Providers {
    /// The date text of a cycle ("" when unknown).
    pub fn cycle_dt(&self, cycle: u32) -> (r: &str)
        ensures
            r@ == spec_cycle_dt(self.meta, cycle),
    {
        if cycle == 1 {
            opt_text(&self.meta.cycle_1)
        } else if cycle == 2 {
            opt_text(&self.meta.cycle_2)
        } else if cycle == 3 {
            opt_text(&self.meta.cycle_3)
        } else if cycle == 4 {
            opt_text(&self.meta.cycle_4)
        } else {
            opt_text(&None)
        }
    }

    /// The (plain, html) notice for a cycle: tags every provider with a
    /// Matrix handle whose validators leave this cycle, listing each
    /// validator's name and stash; `from`/`to` are the set sizes. `None`
    /// when no tagged provider leaves this cycle.
    pub fn cycle_notice(&self, cycle: u32, from: u32, to: u32) -> (r: Option<(String, String)>)
        ensures
            match r {
                Some((text, html)) => {
                    let rows = notice_rows(self.providers@, decimal(cycle as nat));
                    let dt = spec_cycle_dt(self.meta, cycle);
                    &&& rows.len() > 0
                    &&& text@ == notice_text(rows, cycle, dt, from, to)
                    &&& html@ == notice_html(rows, cycle, dt, from, to)
                },
                None => notice_rows(self.providers@, decimal(cycle as nat)).len() == 0,
            },
    {
        let mut key = String::new();
        push_decimal(&mut key, cycle as u128);
        let ghost k = key@;
        assert(k == decimal(cycle as nat));
        let mut body_text = String::new();
        let mut body_html = String::new();
        let mut nrows: usize = 0;
        let np = self.providers.len();
        for i in 0..np
            invariant
                np == self.providers@.len(),
                key@ == k,
                nrows == notice_rows(self.providers@.take(i as int), k).len(),
                nrows <= i,
                body_text@ == text_rows(notice_rows(self.providers@.take(i as int), k)),
                body_html@ == html_rows(notice_rows(self.providers@.take(i as int), k)),
        {
            let p = &self.providers[i];
            let ghost pre_rows = notice_rows(self.providers@.take(i as int), k);
            assert(self.providers@.take(i + 1).drop_last() =~= self.providers@.take(i as int));
            assert(self.providers@.take(i + 1).last() == *p);
            // The provider's validators leaving this cycle.
            let mut leaving: Vec<&Val> = Vec::new();
            let nv = p.validators.len();
            for j in 0..nv
                invariant
                    nv == p.validators@.len(),
                    key@ == k,
                    leaving@.map_values(|v: &Val| *v) == cycle_vals(p.validators@.take(j as int), k),
            {
                assert(p.validators@.take(j + 1).drop_last() =~= p.validators@.take(j as int));
                assert(p.validators@.take(j + 1).last() == p.validators@[j as int]);
                if p.validators[j].cycle == key {
                    let ghost before = leaving@;
                    leaving.push(&p.validators[j]);
                    assert(leaving@.map_values(|v: &Val| *v) =~= before.map_values(|v: &Val| *v).push(
                        p.validators@[j as int],
                    ));
                }
            }
            assert(p.validators@.take(nv as int) =~= p.validators@);
            let ghost vs = cycle_vals(p.validators@, k);
            if p.matrix.as_str().unicode_len() > 0 && leaving.len() > 0 {
                let nl = leaving.len();
                body_text.append("• ");
                body_text.append(p.matrix.as_str());
                body_text.append(" — ");
                body_text.append(p.display.as_str());
                body_text.append(" (");
                push_decimal(&mut body_text, nl as u128);
                body_text.append("):\n");
                body_html.append("<li><a href=\"https://matrix.to/#/");
                body_html.append(p.matrix.as_str());
                body_html.append("\">");
                body_html.append(p.matrix.as_str());
                body_html.append("</a> — ");
                body_html.append(p.display.as_str());
                body_html.append(" (");
                push_decimal(&mut body_html, nl as u128);
                body_html.append("):<ul>");
                let ghost text_head = body_text@;
                let ghost html_head = body_html@;
                for j in 0..nl
                    invariant
                        nl == leaving@.len(),
                        leaving@.map_values(|v: &Val| *v) == vs,
                        body_text@ == text_head + text_vals(vs.take(j as int)),
                        body_html@ == html_head + html_vals(vs.take(j as int)),
                {
                    let v = leaving[j];
                    assert(vs.take(j + 1).drop_last() =~= vs.take(j as int));
                    assert(vs.take(j + 1).last() == *v);
                    body_text.append("    ");
                    body_text.append(v.name.as_str());
                    body_text.append("  ");
                    body_text.append(v.stash.as_str());
                    body_text.append("\n");
                    body_html.append("<li>");
                    body_html.append(v.name.as_str());
                    body_html.append(" — <code>");
                    body_html.append(v.stash.as_str());
                    body_html.append("</code></li>");
                    assert(body_text@ =~= text_head + text_vals(vs.take(j + 1)));
                    assert(body_html@ =~= html_head + html_vals(vs.take(j + 1)));
                }
                assert(vs.take(nl as int) =~= vs);
                body_html.append("</ul></li>");
                nrows = nrows + 1;
                proof {
                    let rows = notice_rows(self.providers@.take(i + 1), k);
                    assert(rows == pre_rows.push((*p, vs)));
                    assert(rows.drop_last() =~= pre_rows);
                    assert(nl == vs.len());
                    assert(body_text@ =~= text_rows(rows));
                    assert(body_html@ =~= html_rows(rows));
                }
            }
        }
        assert(self.providers@.take(np as int) =~= self.providers@);
        if nrows == 0 {
            return None;
        }
        let dt = self.cycle_dt(cycle);
        let mut text = String::new();
        text.append("🔻 Paseo relay downsizing — Cycle ");
        push_decimal(&mut text, cycle as u128);
        text.append(" of 4 · ");
        text.append(dt);
        text.append(" · validator set ");
        push_decimal(&mut text, from as u128);
        text.append(" → ");
        push_decimal(&mut text, to as u128);
        text.append(".\nThese validators are being rotated out of the active set this cycle (force-unstaked, no slashing):\n\n");
        text.append(body_text.as_str());
        text.append("\nNo slashing — validators are cleanly removed. Chains stay live at a reduced cadence. Live status: https://paseo-downsizer.r0gue.io");
        let mut html = String::new();
        html.append("<b>🔻 Paseo relay downsizing — Cycle ");
        push_decimal(&mut html, cycle as u128);
        html.append(" of 4</b> · ");
        html.append(dt);
        html.append(" · validator set ");
        push_decimal(&mut html, from as u128);
        html.append(" → ");
        push_decimal(&mut html, to as u128);
        html.append(".<br/>These validators are being rotated out this cycle (force-unstaked, no slashing):<ul>");
        html.append(body_html.as_str());
        html.append("</ul>");
        html.append("No slashing — validators are cleanly removed. Chains stay live at a reduced cadence. <a href=\"https://paseo-downsizer.r0gue.io\">Live status</a>.");
        proof {
            let rows = notice_rows(self.providers@, k);
            let d = spec_cycle_dt(self.meta, cycle);
            assert(text@ =~= notice_text(rows, cycle, d, from, to));
            assert(html@ =~= notice_html(rows, cycle, d, from, to));
        }
        Some((text, html))
    }
}

} // verus!
