//! What holds of the text form's grammar as a whole.

use vstd::prelude::*;
use crate::document::{ValueModel, PropertyModel};
use crate::grammar_model::{
    Stream, advance, g_value, g_vector_items, g_property, g_property_list, g_trailing_properties,
    g_edit, g_use_import, g_legacy_import, g_statement, g_ident,
};

verus! {

/// Each part of the grammar that succeeds takes at least one token, and
/// never reads past the last.
pub proof fn lemma_value_progress(st: Stream, k: int)
    requires
        0 <= k < st.toks.len(),
    ensures
        g_value(st, k) matches Ok((v, k1)) ==> k < k1 < st.toks.len(),
    decreases st.toks.len() - k, 0int,
{
    if let Ok(k1) = advance(st, k) {
        lemma_items_progress(st, k1, Seq::empty());
    }
}

/// The same for the items of a vector.
pub proof fn lemma_items_progress(st: Stream, k: int, acc: Seq<ValueModel>)
    requires
        0 <= k,
    ensures
        g_vector_items(st, k, acc) matches Ok((v, k1)) ==> k < k1 < st.toks.len(),
    decreases st.toks.len() - k, 1int,
{
    if 0 <= k < st.toks.len() {
        if let Ok(k1) = advance(st, k) {
            lemma_items_progress(st, k1, acc);
        }
        lemma_value_progress(st, k);
        if let Ok((v, k1)) = g_value(st, k) {
            if k < k1 <= st.toks.len() {
                lemma_items_progress(st, k1, acc.push(v));
            }
        }
    }
}

/// The same for a property.
pub proof fn lemma_property_progress(st: Stream, k: int, require_colon: bool)
    requires
        0 <= k < st.toks.len(),
    ensures
        g_property(st, k, require_colon) matches Ok((p, k1)) ==> k < k1 < st.toks.len(),
{
    reveal(g_property);
    if let Ok((key, k1)) = g_ident(st, k) {
        if let Ok(k2) = advance(st, k1) {
            lemma_value_progress(st, k2);
        }
        lemma_value_progress(st, k1);
    }
}

/// The same for the properties inside an edit's brackets, which may be none.
pub proof fn lemma_property_list_progress(st: Stream, k: int, acc: Seq<PropertyModel>)
    requires
        0 <= k,
    ensures
        g_property_list(st, k, acc) matches Ok((ps, k1)) ==> k <= k1 < st.toks.len(),
    decreases st.toks.len() - k,
{
    if 0 <= k < st.toks.len() {
        if let Ok(k1) = advance(st, k) {
            lemma_property_list_progress(st, k1, acc);
        }
        lemma_property_progress(st, k, true);
        if let Ok((p, k1)) = g_property(st, k, true) {
            if k < k1 <= st.toks.len() {
                lemma_property_list_progress(st, k1, acc.push(p));
            }
        }
    }
}

/// The same for the properties after an edit's brackets, which may be none.
pub proof fn lemma_trailing_progress(st: Stream, k: int, acc: Seq<PropertyModel>)
    requires
        0 <= k,
    ensures
        g_trailing_properties(st, k, acc) matches Ok((ps, k1)) ==> k <= k1 < st.toks.len(),
    decreases st.toks.len() - k,
{
    if 0 <= k < st.toks.len() {
        if let Ok(k1) = advance(st, k) {
            lemma_trailing_progress(st, k1, acc);
        }
        lemma_property_progress(st, k, false);
        if let Ok((p, k1)) = g_property(st, k, false) {
            if k < k1 <= st.toks.len() {
                lemma_trailing_progress(st, k1, acc.push(p));
            }
        }
    }
}

/// The same for an edit.
pub proof fn lemma_edit_progress(st: Stream, k: int)
    requires
        0 <= k < st.toks.len(),
    ensures
        g_edit(st, k) matches Ok((e, k1)) ==> k < k1 < st.toks.len(),
{
    reveal(g_edit);
    if let Ok(k1) = advance(st, k) {
        if let Ok((p, k2)) = g_ident(st, k1) {
            if let Ok(k3) = advance(st, k2) {
                lemma_property_list_progress(st, k3, Seq::empty());
                if let Ok((inner, k4)) = g_property_list(st, k3, Seq::empty()) {
                    if let Ok(k5) = advance(st, k4) {
                        lemma_trailing_progress(st, k5, inner);
                    }
                }
            }
        }
    }
}

/// The same for a statement.
pub proof fn lemma_statement_progress(st: Stream, k: int)
    requires
        0 <= k < st.toks.len(),
    ensures
        g_statement(st, k) matches Ok((x, k1)) ==> k < k1 < st.toks.len(),
{
    reveal(g_statement);
    reveal(g_use_import);
    reveal(g_legacy_import);
    lemma_edit_progress(st, k);
}

} // verus!
