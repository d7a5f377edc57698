//! Rules of the WhatsApp session store.
use vstd::prelude::*;

use crate::db::decision_cache::marks;
use crate::search::{dec_usize, decimal, join, join_strs};
use crate::text::{cat3, views};

verus! {

/// The length of an identity key.
pub const IDENTITY_KEY_LEN: usize = 32;

/// A stored identity key, or why it is none.
pub fn check_identity(key: Vec<u8>) -> (r: Result<Vec<u8>, String>)
    ensures
        match r {
            Ok(k) => k@ == key@ && key@.len() == IDENTITY_KEY_LEN,
            Err(e) => key@.len() != IDENTITY_KEY_LEN && e@ == "identity key length "@ + decimal(
                key@.len(),
            ) + " != 32"@,
        },
{
    if key.len() == IDENTITY_KEY_LEN {
        Ok(key)
    } else {
        Err(cat3("identity key length ", dec_usize(key.len()).as_str(), " != 32"))
    }
}

/// Whether the stored base key of a message is the current one.
pub fn has_same_base_key(stored: &Option<Vec<u8>>, current: &Vec<u8>) -> (r: bool)
    ensures
        r == (stored is Some && stored->0@ == current@),
{
    let s = match stored {
        Some(s) => s,
        None => return false,
    };
    if s.len() != current.len() {
        return false;
    }
    let mut i: usize = 0;
    while i < s.len()
        invariant
            i <= s.len(),
            s@.len() == current@.len(),
            *stored == Some(*s),
            forall|k: int| 0 <= k < i ==> #[trigger] s@[k] == current@[k],
        decreases s.len() - i,
    {
        if s[i] != current[i] {
            assert(s@[i as int] != current@[i as int]);
            return false;
        }
        i = i + 1;
    }
    assert(s@ =~= current@);
    true
}

/// A token of a contact.
pub struct TokenRow {
    pub jid: String,
    /// The received token; absent or empty where none was received.
    pub token: Option<Vec<u8>>,
    pub token_timestamp: i64,
    pub sender_timestamp: Option<i64>,
}

/// Whether a token's row goes: only once both windows are stale. A recent
/// sender bucket keeps the row even where the received token has expired.
pub open spec fn is_stale(row: TokenRow, token_cutoff: i64, sender_cutoff: i64) -> bool {
    &&& row.token_timestamp < token_cutoff || row.token is None || row.token->0@.len() == 0
    &&& row.sender_timestamp is None || row.sender_timestamp->0 < sender_cutoff
}

/// The contacts whose token rows go, in order.
pub open spec fn stale_jids(rows: Seq<TokenRow>, token_cutoff: i64, sender_cutoff: i64) -> Seq<
    Seq<char>,
>
    decreases rows.len(),
{
    if rows.len() == 0 {
        Seq::empty()
    } else if is_stale(rows.last(), token_cutoff, sender_cutoff) {
        stale_jids(rows.drop_last(), token_cutoff, sender_cutoff).push(rows.last().jid@)
    } else {
        stale_jids(rows.drop_last(), token_cutoff, sender_cutoff)
    }
}

fn stale(row: &TokenRow, token_cutoff: i64, sender_cutoff: i64) -> (r: bool)
    ensures
        r == is_stale(*row, token_cutoff, sender_cutoff),
{
    let received = match &row.token {
        Some(t) => t.len() > 0 && row.token_timestamp >= token_cutoff,
        None => false,
    };
    let sent = match row.sender_timestamp {
        Some(t) => t >= sender_cutoff,
        None => false,
    };
    !received && !sent
}

/// The contacts whose token rows go.
pub fn expired_tc_tokens(rows: &Vec<TokenRow>, token_cutoff: i64, sender_cutoff: i64) -> (r: Vec<
    String,
>)
    ensures
        views(r@) == stale_jids(rows@, token_cutoff, sender_cutoff),
{
    let mut out: Vec<String> = Vec::new();
    let mut i: usize = 0;
    assert(rows@.take(0) =~= Seq::empty());
    assert(views(out@) =~= Seq::empty());
    while i < rows.len()
        invariant
            i <= rows.len(),
            views(out@) == stale_jids(rows@.take(i as int), token_cutoff, sender_cutoff),
        decreases rows.len() - i,
    {
        assert(rows@.take(i + 1).drop_last() =~= rows@.take(i as int));
        let ghost pre = views(out@);
        if stale(&rows[i], token_cutoff, sender_cutoff) {
            out.push(rows[i].jid.clone());
            assert(views(out@) =~= pre.push(rows@[i as int].jid@));
        }
        i = i + 1;
    }
    assert(rows@.take(i as int) =~= rows@);
    out
}

/// The statement that deletes the rows of `n` devices.
pub open spec fn delete_devices_text(n: nat) -> Seq<char> {
    "DELETE FROM wa_sender_key_devices WHERE device_id = ? AND device_jid IN ("@ + join(
        marks(n),
        ", "@,
    ) + ")"@
}

/// The statement that deletes the rows of `n` devices; `None` where there is
/// nothing to delete.
pub fn delete_sender_key_device_rows(n: usize) -> (r: Option<String>)
    ensures
        match r {
            None => n == 0,
            Some(s) => n > 0 && s@ == delete_devices_text(n as nat),
        },
{
    if n == 0 {
        return None;
    }
    let mut parts: Vec<String> = Vec::new();
    let mut i: usize = 0;
    assert(views(parts@) =~= marks(0));
    while i < n
        invariant
            i <= n,
            views(parts@) == marks(i as nat),
        decreases n - i,
    {
        let ghost pre = views(parts@);
        parts.push("?".to_owned());
        assert(views(parts@) =~= pre.push("?"@));
        assert(marks((i + 1) as nat) =~= pre.push("?"@));
        i = i + 1;
    }
    Some(
        cat3(
            "DELETE FROM wa_sender_key_devices WHERE device_id = ? AND device_jid IN (",
            join_strs(&parts, ", ").as_str(),
            ")",
        ),
    )
}

/// A row with a recent sender bucket stays, whatever became of its token.
pub proof fn law_recent_sender_keeps_the_row(row: TokenRow, token_cutoff: i64, sender_cutoff: i64)
    requires
        row.sender_timestamp is Some,
        row.sender_timestamp->0 >= sender_cutoff,
    ensures
        !is_stale(row, token_cutoff, sender_cutoff),
{
}

/// A token row goes exactly when nothing of it is in use any more: no token
/// was received, or only one that has expired, and nothing was sent lately.
pub proof fn law_stale_rows(row: TokenRow, token_cutoff: i64, sender_cutoff: i64)
    ensures
        ({
            let received = row.token is Some && row.token->0@.len() > 0 && row.token_timestamp
                >= token_cutoff;
            let sent = row.sender_timestamp is Some && row.sender_timestamp->0 >= sender_cutoff;
            is_stale(row, token_cutoff, sender_cutoff) <==> !received && !sent
        }),
{
}

proof fn lemma_stale_add(
    a: Seq<TokenRow>,
    b: Seq<TokenRow>,
    token_cutoff: i64,
    sender_cutoff: i64,
)
    ensures
        stale_jids(a + b, token_cutoff, sender_cutoff) == stale_jids(
            a,
            token_cutoff,
            sender_cutoff,
        ) + stale_jids(b, token_cutoff, sender_cutoff),
    decreases b.len(),
{
    let s = |x: Seq<TokenRow>| stale_jids(x, token_cutoff, sender_cutoff);
    if b.len() == 0 {
        assert(a + b =~= a);
        assert(s(a) + s(b) =~= s(a));
    } else {
        assert((a + b).drop_last() =~= a + b.drop_last());
        lemma_stale_add(a, b.drop_last(), token_cutoff, sender_cutoff);
        assert(s(a + b) =~= s(a) + s(b));
    }
}

/// The contacts whose rows go are those of the stale rows, in order.
pub proof fn law_only_stale_rows_go(
    a: Seq<TokenRow>,
    row: TokenRow,
    b: Seq<TokenRow>,
    token_cutoff: i64,
    sender_cutoff: i64,
)
    ensures
        ({
            let s = |x: Seq<TokenRow>| stale_jids(x, token_cutoff, sender_cutoff);
            s(a.push(row) + b) == if is_stale(row, token_cutoff, sender_cutoff) {
                s(a).push(row.jid@) + s(b)
            } else {
                s(a) + s(b)
            }
        }),
{
    lemma_stale_add(a.push(row), b, token_cutoff, sender_cutoff);
    assert(a.push(row).drop_last() =~= a);
}

/// The statement has a placeholder for the device and one for each address.
pub proof fn law_each_device_has_a_placeholder(n: nat)
    ensures
        delete_devices_text(1)
            == "DELETE FROM wa_sender_key_devices WHERE device_id = ? AND device_jid IN (?)"@,
        n > 0 ==> delete_devices_text(n + 1) == delete_devices_text(n).drop_last() + ", ?)"@,
        IDENTITY_KEY_LEN == 32,
{
    reveal_strlit("DELETE FROM wa_sender_key_devices WHERE device_id = ? AND device_jid IN (");
    reveal_strlit("DELETE FROM wa_sender_key_devices WHERE device_id = ? AND device_jid IN (?)");
    reveal_strlit("?");
    reveal_strlit(")");
    reveal_strlit(", ?)");
    reveal_strlit(", ");
    reveal_with_fuel(join, 2);
    assert(marks(1) =~= seq!["?"@]);
    assert(delete_devices_text(1)
        =~= "DELETE FROM wa_sender_key_devices WHERE device_id = ? AND device_jid IN (?)"@);
    if n > 0 {
        assert(marks(n + 1).drop_last() =~= marks(n));
        assert(join(marks(n + 1), ", "@) == join(marks(n), ", "@) + ", "@ + "?"@);
        assert(delete_devices_text(n + 1) =~= delete_devices_text(n).drop_last() + ", ?)"@);
    }
}

} // verus!
