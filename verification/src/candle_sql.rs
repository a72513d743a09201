//! SQL texts built from options: the aggregate futures candle tables (their
//! definition, the delete of a symbol's range, the bucketed insert) and the
//! pattern query of the XA outcome labeller.
use vstd::prelude::*;
use crate::text::{
    chars_of, has_text, lemma_has_text_between, lemma_has_text_end, lemma_has_text_grow, lemma_has_text_within, push_all, push_lit,
    string_of,
};
use crate::numeric::{int_chars, int_text};
use crate::timeframes::TimeframeSpec;

verus! {

/// The definition of an aggregate candle table.
pub open spec fn target_table_sql_text(table: Seq<char>, index_prefix: Seq<char>) -> Seq<char> {
    "CREATE TABLE IF NOT EXISTS "@ + table
        + " (root_symbol VARCHAR(16) NULL, symbol VARCHAR(32) NOT NULL, ts_utc DATETIME NOT NULL, open DECIMAL(18,8) NOT NULL, high DECIMAL(18,8) NOT NULL, low DECIMAL(18,8) NOT NULL, close DECIMAL(18,8) NOT NULL, volume BIGINT NOT NULL DEFAULT 0, source_count INT NOT NULL DEFAULT 0, source_first_ts DATETIME NULL, source_last_ts DATETIME NULL, created_at TIMESTAMP NOT NULL DEFAULT CURRENT_TIMESTAMP, updated_at TIMESTAMP NOT NULL DEFAULT CURRENT_TIMESTAMP ON UPDATE CURRENT_TIMESTAMP, "@
        + "PRIMARY KEY (symbol, ts_utc)"@ + ", INDEX idx_"@ + index_prefix
        + "_root_ts (root_symbol, ts_utc), INDEX idx_"@ + index_prefix + "_ts (ts_utc))"@
}

/// The statement that creates a timeframe's candle table where it is missing.
pub fn target_table_sql(spec: &TimeframeSpec) -> (r: String)
    ensures r@ == target_table_sql_text(spec.table_name@, spec.index_prefix@),
{
    let mut v = chars_of("CREATE TABLE IF NOT EXISTS ");
    push_lit(&mut v, spec.table_name);
    push_lit(&mut v, " (root_symbol VARCHAR(16) NULL, symbol VARCHAR(32) NOT NULL, ts_utc DATETIME NOT NULL, open DECIMAL(18,8) NOT NULL, high DECIMAL(18,8) NOT NULL, low DECIMAL(18,8) NOT NULL, close DECIMAL(18,8) NOT NULL, volume BIGINT NOT NULL DEFAULT 0, source_count INT NOT NULL DEFAULT 0, source_first_ts DATETIME NULL, source_last_ts DATETIME NULL, created_at TIMESTAMP NOT NULL DEFAULT CURRENT_TIMESTAMP, updated_at TIMESTAMP NOT NULL DEFAULT CURRENT_TIMESTAMP ON UPDATE CURRENT_TIMESTAMP, ");
    push_lit(&mut v, "PRIMARY KEY (symbol, ts_utc)");
    push_lit(&mut v, ", INDEX idx_");
    push_lit(&mut v, spec.index_prefix);
    push_lit(&mut v, "_root_ts (root_symbol, ts_utc), INDEX idx_");
    push_lit(&mut v, spec.index_prefix);
    push_lit(&mut v, "_ts (ts_utc))");
    proof { assert(v@ =~= target_table_sql_text(spec.table_name@, spec.index_prefix@)); }
    string_of(&v)
}

/// An aggregate candle table holds one candle per symbol and bucket time:
/// its primary key is the symbol and the time.
pub proof fn lemma_candle_table_keys_symbol_and_time(table: Seq<char>, index_prefix: Seq<char>)
    ensures
        has_text(target_table_sql_text(table, index_prefix), "PRIMARY KEY (symbol, ts_utc)"@),
{
    assert(has_text(target_table_sql_text(table, index_prefix), "PRIMARY KEY (symbol, ts_utc)"@)) by {
        let t = "PRIMARY KEY (symbol, ts_utc)"@;
        let x = "CREATE TABLE IF NOT EXISTS "@ + table + " (root_symbol VARCHAR(16) NULL, symbol VARCHAR(32) NOT NULL, ts_utc DATETIME NOT NULL, open DECIMAL(18,8) NOT NULL, high DECIMAL(18,8) NOT NULL, low DECIMAL(18,8) NOT NULL, close DECIMAL(18,8) NOT NULL, volume BIGINT NOT NULL DEFAULT 0, source_count INT NOT NULL DEFAULT 0, source_first_ts DATETIME NULL, source_last_ts DATETIME NULL, created_at TIMESTAMP NOT NULL DEFAULT CURRENT_TIMESTAMP, updated_at TIMESTAMP NOT NULL DEFAULT CURRENT_TIMESTAMP ON UPDATE CURRENT_TIMESTAMP, "@;
        lemma_has_text_end(x, t);
        let x = x + t;
        lemma_has_text_grow(x, ", INDEX idx_"@, t);
        let x = x + ", INDEX idx_"@;
        lemma_has_text_grow(x, index_prefix, t);
        let x = x + index_prefix;
        lemma_has_text_grow(x, "_root_ts (root_symbol, ts_utc), INDEX idx_"@, t);
        let x = x + "_root_ts (root_symbol, ts_utc), INDEX idx_"@;
        lemma_has_text_grow(x, index_prefix, t);
        let x = x + index_prefix;
        lemma_has_text_grow(x, "_ts (ts_utc))"@, t);
    }
}

/// The time-range conditions on `ts_utc`, where a start or an end is given.
pub open spec fn range_filter_text(has_start: bool, has_end: bool) -> Seq<char> {
    (if has_start { " AND ts_utc >= ?"@ } else { Seq::empty() }) + (if has_end { " AND ts_utc < ?"@ } else { Seq::empty() })
}

fn push_range_filter(v: &mut Vec<char>, has_start: bool, has_end: bool)
    ensures final(v)@ == old(v)@ + range_filter_text(has_start, has_end),
{
    let ghost start = v@;
    if has_start {
        push_lit(v, " AND ts_utc >= ?");
    }
    if has_end {
        push_lit(v, " AND ts_utc < ?");
    }
    proof {
        let a: Seq<char> = if has_start { " AND ts_utc >= ?"@ } else { Seq::empty() };
        let b: Seq<char> = if has_end { " AND ts_utc < ?"@ } else { Seq::empty() };
        assert(v@ =~= start + (a + b));
    }
}

/// The delete of one symbol's candles from an aggregate table, within the
/// time range where one is given.
pub open spec fn clear_symbol_sql_text(table: Seq<char>, has_start: bool, has_end: bool) -> Seq<char> {
    "DELETE FROM "@ + table + " WHERE symbol = ?"@ + range_filter_text(has_start, has_end)
}

/// The statement that deletes a symbol's aggregate candles.
pub fn clear_symbol_sql(spec: &TimeframeSpec, has_start: bool, has_end: bool) -> (r: String)
    ensures r@ == clear_symbol_sql_text(spec.table_name@, has_start, has_end),
{
    let mut v = chars_of("DELETE FROM ");
    push_lit(&mut v, spec.table_name);
    push_lit(&mut v, " WHERE symbol = ?");
    push_range_filter(&mut v, has_start, has_end);
    string_of(&v)
}

/// The delete removes the given table's candles of the bound symbol and no
/// others: it starts `DELETE FROM <table> WHERE symbol = ?`, bounds the time
/// from below and above only where a start or an end is given, and has no
/// time condition where neither is.
pub proof fn lemma_clear_deletes_one_symbol_in_range(table: Seq<char>, has_start: bool, has_end: bool)
    ensures
        clear_symbol_sql_text(table, has_start, has_end).subrange(0, ("DELETE FROM "@ + table + " WHERE symbol = ?"@).len() as int)
            == "DELETE FROM "@ + table + " WHERE symbol = ?"@,
        has_start ==> has_text(clear_symbol_sql_text(table, has_start, has_end), " AND ts_utc >= ?"@),
        has_end ==> has_text(clear_symbol_sql_text(table, has_start, has_end), " AND ts_utc < ?"@),
        !has_start && !has_end ==> clear_symbol_sql_text(table, has_start, has_end) == "DELETE FROM "@ + table + " WHERE symbol = ?"@,
{
    let head = "DELETE FROM "@ + table + " WHERE symbol = ?"@;
    let st: Seq<char> = if has_start { " AND ts_utc >= ?"@ } else { Seq::empty() };
    let en: Seq<char> = if has_end { " AND ts_utc < ?"@ } else { Seq::empty() };
    let s = clear_symbol_sql_text(table, has_start, has_end);
    assert(s =~= head + st + en);
    assert(s.subrange(0, head.len() as int) =~= head);
    if has_start {
        lemma_has_text_between(head, st, en);
    }
    if has_end {
        lemma_has_text_end(head + st, en);
    }
}

/// The bucketed insert of one symbol's one-minute candles into an aggregate
/// table: candles grouped into buckets of `minutes` since the epoch, with
/// the first open, highest high, lowest low, last close and summed volume
/// of each bucket, updating buckets already present.
pub open spec fn rebuild_symbol_sql_text(table: Seq<char>, minutes: int, has_start: bool, has_end: bool) -> Seq<char> {
    "INSERT INTO "@ + table
        + " (root_symbol, symbol, ts_utc, open, high, low, close, volume, source_count, source_first_ts, source_last_ts) SELECT agg.root_symbol, agg.symbol, agg.bucket_ts AS ts_utc, CAST("@
        + "MAX(open_source.open) AS DECIMAL(18,8)) AS open"@ + ", agg.high, agg.low, CAST("@
        + "MAX(close_source.close) AS DECIMAL(18,8)) AS close"@
        + ", agg.volume, agg.source_count, agg.source_first_ts, agg.source_last_ts FROM (SELECT MAX(root_symbol) AS root_symbol, symbol, TIMESTAMPADD(MINUTE, "@
        + ("FLOOR(TIMESTAMPDIFF(MINUTE, '1970-01-01 00:00:00', ts_utc) / "@ + int_text(minutes) + ") * "@ + int_text(minutes))
        + ", '1970-01-01 00:00:00') AS bucket_ts, "@ + "MAX(high) AS high"@ + ", "@
        + "MIN(low) AS low"@ + ", "@ + "COALESCE(SUM(volume), 0) AS volume"@
        + ", COUNT(*) AS source_count, "@ + "MIN(ts_utc) AS source_first_ts"@ + ", "@
        + "MAX(ts_utc) AS source_last_ts"@ + " FROM futures_contract_1m_candles WHERE symbol = ?"@
        + range_filter_text(has_start, has_end)
        + " GROUP BY symbol, bucket_ts) agg INNER JOIN futures_contract_1m_candles open_source ON open_source.symbol = agg.symbol AND "@
        + "open_source.ts_utc = agg.source_first_ts"@
        + " INNER JOIN futures_contract_1m_candles close_source ON close_source.symbol = agg.symbol AND "@
        + "close_source.ts_utc = agg.source_last_ts"@
        + " GROUP BY agg.root_symbol, agg.symbol, agg.bucket_ts, agg.high, agg.low, agg.volume, agg.source_count, agg.source_first_ts, agg.source_last_ts ON DUPLICATE KEY UPDATE root_symbol = VALUES(root_symbol), open = VALUES(open), high = VALUES(high), low = VALUES(low), close = VALUES(close), volume = VALUES(volume), source_count = VALUES(source_count), source_first_ts = VALUES(source_first_ts), source_last_ts = VALUES(source_last_ts), updated_at = CURRENT_TIMESTAMP"@
}

/// The statement that rebuilds a symbol's aggregate candles.
pub fn rebuild_symbol_sql(spec: &TimeframeSpec, has_start: bool, has_end: bool) -> (r: String)
    ensures r@ == rebuild_symbol_sql_text(spec.table_name@, spec.minutes as int, has_start, has_end),
{
    let minutes = int_chars(spec.minutes);
    let mut v = chars_of("INSERT INTO ");
    push_lit(&mut v, spec.table_name);
    push_lit(&mut v, " (root_symbol, symbol, ts_utc, open, high, low, close, volume, source_count, source_first_ts, source_last_ts) SELECT agg.root_symbol, agg.symbol, agg.bucket_ts AS ts_utc, CAST(");
    push_lit(&mut v, "MAX(open_source.open) AS DECIMAL(18,8)) AS open");
    push_lit(&mut v, ", agg.high, agg.low, CAST(");
    push_lit(&mut v, "MAX(close_source.close) AS DECIMAL(18,8)) AS close");
    push_lit(&mut v, ", agg.volume, agg.source_count, agg.source_first_ts, agg.source_last_ts FROM (SELECT MAX(root_symbol) AS root_symbol, symbol, TIMESTAMPADD(MINUTE, ");
    push_lit(&mut v, "FLOOR(TIMESTAMPDIFF(MINUTE, '1970-01-01 00:00:00', ts_utc) / ");
    push_all(&mut v, &minutes);
    push_lit(&mut v, ") * ");
    push_all(&mut v, &minutes);
    push_lit(&mut v, ", '1970-01-01 00:00:00') AS bucket_ts, ");
    push_lit(&mut v, "MAX(high) AS high");
    push_lit(&mut v, ", ");
    push_lit(&mut v, "MIN(low) AS low");
    push_lit(&mut v, ", ");
    push_lit(&mut v, "COALESCE(SUM(volume), 0) AS volume");
    push_lit(&mut v, ", COUNT(*) AS source_count, ");
    push_lit(&mut v, "MIN(ts_utc) AS source_first_ts");
    push_lit(&mut v, ", ");
    push_lit(&mut v, "MAX(ts_utc) AS source_last_ts");
    push_lit(&mut v, " FROM futures_contract_1m_candles WHERE symbol = ?");
    push_range_filter(&mut v, has_start, has_end);
    push_lit(&mut v, " GROUP BY symbol, bucket_ts) agg INNER JOIN futures_contract_1m_candles open_source ON open_source.symbol = agg.symbol AND ");
    push_lit(&mut v, "open_source.ts_utc = agg.source_first_ts");
    push_lit(&mut v, " INNER JOIN futures_contract_1m_candles close_source ON close_source.symbol = agg.symbol AND ");
    push_lit(&mut v, "close_source.ts_utc = agg.source_last_ts");
    push_lit(&mut v, " GROUP BY agg.root_symbol, agg.symbol, agg.bucket_ts, agg.high, agg.low, agg.volume, agg.source_count, agg.source_first_ts, agg.source_last_ts ON DUPLICATE KEY UPDATE root_symbol = VALUES(root_symbol), open = VALUES(open), high = VALUES(high), low = VALUES(low), close = VALUES(close), volume = VALUES(volume), source_count = VALUES(source_count), source_first_ts = VALUES(source_first_ts), source_last_ts = VALUES(source_last_ts), updated_at = CURRENT_TIMESTAMP");
    proof { assert(v@ =~= rebuild_symbol_sql_text(spec.table_name@, spec.minutes as int, has_start, has_end)); }
    string_of(&v)
}

/// What a rebuilt aggregate candle is made of: each bucket spans `minutes`
/// minutes from the epoch; its open is the open of the bucket's first
/// one-minute candle (the one at the bucket's earliest time) and its close
/// the close of its last (the one at its latest time); its high is the
/// highest high, its low the lowest low, its volume the summed volume; only
/// the symbol's candles within the given time range are read.
pub proof fn lemma_rebuild_takes_first_open_and_last_close(table: Seq<char>, minutes: int, has_start: bool, has_end: bool)
    ensures
        has_text(rebuild_symbol_sql_text(table, minutes, has_start, has_end), "MAX(open_source.open) AS DECIMAL(18,8)) AS open"@),
        has_text(rebuild_symbol_sql_text(table, minutes, has_start, has_end), "MAX(close_source.close) AS DECIMAL(18,8)) AS close"@),
        has_text(rebuild_symbol_sql_text(table, minutes, has_start, has_end), "FLOOR(TIMESTAMPDIFF(MINUTE, '1970-01-01 00:00:00', ts_utc) / "@ + int_text(minutes) + ") * "@ + int_text(minutes)),
        has_text(rebuild_symbol_sql_text(table, minutes, has_start, has_end), "MAX(high) AS high"@),
        has_text(rebuild_symbol_sql_text(table, minutes, has_start, has_end), "MIN(low) AS low"@),
        has_text(rebuild_symbol_sql_text(table, minutes, has_start, has_end), "COALESCE(SUM(volume), 0) AS volume"@),
        has_text(rebuild_symbol_sql_text(table, minutes, has_start, has_end), "MIN(ts_utc) AS source_first_ts"@),
        has_text(rebuild_symbol_sql_text(table, minutes, has_start, has_end), "MAX(ts_utc) AS source_last_ts"@),
        has_text(rebuild_symbol_sql_text(table, minutes, has_start, has_end), "open_source.ts_utc = agg.source_first_ts"@),
        has_text(rebuild_symbol_sql_text(table, minutes, has_start, has_end), "close_source.ts_utc = agg.source_last_ts"@),
        has_start ==> has_text(rebuild_symbol_sql_text(table, minutes, has_start, has_end), " AND ts_utc >= ?"@),
        has_end ==> has_text(rebuild_symbol_sql_text(table, minutes, has_start, has_end), " AND ts_utc < ?"@),
{
    assert(has_text(rebuild_symbol_sql_text(table, minutes, has_start, has_end), "MAX(open_source.open) AS DECIMAL(18,8)) AS open"@)) by {
        let t = "MAX(open_source.open) AS DECIMAL(18,8)) AS open"@;
        let x = "INSERT INTO "@ + table + " (root_symbol, symbol, ts_utc, open, high, low, close, volume, source_count, source_first_ts, source_last_ts) SELECT agg.root_symbol, agg.symbol, agg.bucket_ts AS ts_utc, CAST("@;
        lemma_has_text_end(x, t);
        let x = x + t;
        lemma_has_text_grow(x, ", agg.high, agg.low, CAST("@, t);
        let x = x + ", agg.high, agg.low, CAST("@;
        lemma_has_text_grow(x, "MAX(close_source.close) AS DECIMAL(18,8)) AS close"@, t);
        let x = x + "MAX(close_source.close) AS DECIMAL(18,8)) AS close"@;
        lemma_has_text_grow(x, ", agg.volume, agg.source_count, agg.source_first_ts, agg.source_last_ts FROM (SELECT MAX(root_symbol) AS root_symbol, symbol, TIMESTAMPADD(MINUTE, "@, t);
        let x = x + ", agg.volume, agg.source_count, agg.source_first_ts, agg.source_last_ts FROM (SELECT MAX(root_symbol) AS root_symbol, symbol, TIMESTAMPADD(MINUTE, "@;
        lemma_has_text_grow(x, ("FLOOR(TIMESTAMPDIFF(MINUTE, '1970-01-01 00:00:00', ts_utc) / "@ + int_text(minutes) + ") * "@ + int_text(minutes)), t);
        let x = x + ("FLOOR(TIMESTAMPDIFF(MINUTE, '1970-01-01 00:00:00', ts_utc) / "@ + int_text(minutes) + ") * "@ + int_text(minutes));
        lemma_has_text_grow(x, ", '1970-01-01 00:00:00') AS bucket_ts, "@, t);
        let x = x + ", '1970-01-01 00:00:00') AS bucket_ts, "@;
        lemma_has_text_grow(x, "MAX(high) AS high"@, t);
        let x = x + "MAX(high) AS high"@;
        lemma_has_text_grow(x, ", "@, t);
        let x = x + ", "@;
        lemma_has_text_grow(x, "MIN(low) AS low"@, t);
        let x = x + "MIN(low) AS low"@;
        lemma_has_text_grow(x, ", "@, t);
        let x = x + ", "@;
        lemma_has_text_grow(x, "COALESCE(SUM(volume), 0) AS volume"@, t);
        let x = x + "COALESCE(SUM(volume), 0) AS volume"@;
        lemma_has_text_grow(x, ", COUNT(*) AS source_count, "@, t);
        let x = x + ", COUNT(*) AS source_count, "@;
        lemma_has_text_grow(x, "MIN(ts_utc) AS source_first_ts"@, t);
        let x = x + "MIN(ts_utc) AS source_first_ts"@;
        lemma_has_text_grow(x, ", "@, t);
        let x = x + ", "@;
        lemma_has_text_grow(x, "MAX(ts_utc) AS source_last_ts"@, t);
        let x = x + "MAX(ts_utc) AS source_last_ts"@;
        lemma_has_text_grow(x, " FROM futures_contract_1m_candles WHERE symbol = ?"@, t);
        let x = x + " FROM futures_contract_1m_candles WHERE symbol = ?"@;
        lemma_has_text_grow(x, range_filter_text(has_start, has_end), t);
        let x = x + range_filter_text(has_start, has_end);
        lemma_has_text_grow(x, " GROUP BY symbol, bucket_ts) agg INNER JOIN futures_contract_1m_candles open_source ON open_source.symbol = agg.symbol AND "@, t);
        let x = x + " GROUP BY symbol, bucket_ts) agg INNER JOIN futures_contract_1m_candles open_source ON open_source.symbol = agg.symbol AND "@;
        lemma_has_text_grow(x, "open_source.ts_utc = agg.source_first_ts"@, t);
        let x = x + "open_source.ts_utc = agg.source_first_ts"@;
        lemma_has_text_grow(x, " INNER JOIN futures_contract_1m_candles close_source ON close_source.symbol = agg.symbol AND "@, t);
        let x = x + " INNER JOIN futures_contract_1m_candles close_source ON close_source.symbol = agg.symbol AND "@;
        lemma_has_text_grow(x, "close_source.ts_utc = agg.source_last_ts"@, t);
        let x = x + "close_source.ts_utc = agg.source_last_ts"@;
        lemma_has_text_grow(x, " GROUP BY agg.root_symbol, agg.symbol, agg.bucket_ts, agg.high, agg.low, agg.volume, agg.source_count, agg.source_first_ts, agg.source_last_ts ON DUPLICATE KEY UPDATE root_symbol = VALUES(root_symbol), open = VALUES(open), high = VALUES(high), low = VALUES(low), close = VALUES(close), volume = VALUES(volume), source_count = VALUES(source_count), source_first_ts = VALUES(source_first_ts), source_last_ts = VALUES(source_last_ts), updated_at = CURRENT_TIMESTAMP"@, t);
    }
    assert(has_text(rebuild_symbol_sql_text(table, minutes, has_start, has_end), "MAX(close_source.close) AS DECIMAL(18,8)) AS close"@)) by {
        let t = "MAX(close_source.close) AS DECIMAL(18,8)) AS close"@;
        let x = "INSERT INTO "@ + table + " (root_symbol, symbol, ts_utc, open, high, low, close, volume, source_count, source_first_ts, source_last_ts) SELECT agg.root_symbol, agg.symbol, agg.bucket_ts AS ts_utc, CAST("@ + "MAX(open_source.open) AS DECIMAL(18,8)) AS open"@ + ", agg.high, agg.low, CAST("@;
        lemma_has_text_end(x, t);
        let x = x + t;
        lemma_has_text_grow(x, ", agg.volume, agg.source_count, agg.source_first_ts, agg.source_last_ts FROM (SELECT MAX(root_symbol) AS root_symbol, symbol, TIMESTAMPADD(MINUTE, "@, t);
        let x = x + ", agg.volume, agg.source_count, agg.source_first_ts, agg.source_last_ts FROM (SELECT MAX(root_symbol) AS root_symbol, symbol, TIMESTAMPADD(MINUTE, "@;
        lemma_has_text_grow(x, ("FLOOR(TIMESTAMPDIFF(MINUTE, '1970-01-01 00:00:00', ts_utc) / "@ + int_text(minutes) + ") * "@ + int_text(minutes)), t);
        let x = x + ("FLOOR(TIMESTAMPDIFF(MINUTE, '1970-01-01 00:00:00', ts_utc) / "@ + int_text(minutes) + ") * "@ + int_text(minutes));
        lemma_has_text_grow(x, ", '1970-01-01 00:00:00') AS bucket_ts, "@, t);
        let x = x + ", '1970-01-01 00:00:00') AS bucket_ts, "@;
        lemma_has_text_grow(x, "MAX(high) AS high"@, t);
        let x = x + "MAX(high) AS high"@;
        lemma_has_text_grow(x, ", "@, t);
        let x = x + ", "@;
        lemma_has_text_grow(x, "MIN(low) AS low"@, t);
        let x = x + "MIN(low) AS low"@;
        lemma_has_text_grow(x, ", "@, t);
        let x = x + ", "@;
        lemma_has_text_grow(x, "COALESCE(SUM(volume), 0) AS volume"@, t);
        let x = x + "COALESCE(SUM(volume), 0) AS volume"@;
        lemma_has_text_grow(x, ", COUNT(*) AS source_count, "@, t);
        let x = x + ", COUNT(*) AS source_count, "@;
        lemma_has_text_grow(x, "MIN(ts_utc) AS source_first_ts"@, t);
        let x = x + "MIN(ts_utc) AS source_first_ts"@;
        lemma_has_text_grow(x, ", "@, t);
        let x = x + ", "@;
        lemma_has_text_grow(x, "MAX(ts_utc) AS source_last_ts"@, t);
        let x = x + "MAX(ts_utc) AS source_last_ts"@;
        lemma_has_text_grow(x, " FROM futures_contract_1m_candles WHERE symbol = ?"@, t);
        let x = x + " FROM futures_contract_1m_candles WHERE symbol = ?"@;
        lemma_has_text_grow(x, range_filter_text(has_start, has_end), t);
        let x = x + range_filter_text(has_start, has_end);
        lemma_has_text_grow(x, " GROUP BY symbol, bucket_ts) agg INNER JOIN futures_contract_1m_candles open_source ON open_source.symbol = agg.symbol AND "@, t);
        let x = x + " GROUP BY symbol, bucket_ts) agg INNER JOIN futures_contract_1m_candles open_source ON open_source.symbol = agg.symbol AND "@;
        lemma_has_text_grow(x, "open_source.ts_utc = agg.source_first_ts"@, t);
        let x = x + "open_source.ts_utc = agg.source_first_ts"@;
        lemma_has_text_grow(x, " INNER JOIN futures_contract_1m_candles close_source ON close_source.symbol = agg.symbol AND "@, t);
        let x = x + " INNER JOIN futures_contract_1m_candles close_source ON close_source.symbol = agg.symbol AND "@;
        lemma_has_text_grow(x, "close_source.ts_utc = agg.source_last_ts"@, t);
        let x = x + "close_source.ts_utc = agg.source_last_ts"@;
        lemma_has_text_grow(x, " GROUP BY agg.root_symbol, agg.symbol, agg.bucket_ts, agg.high, agg.low, agg.volume, agg.source_count, agg.source_first_ts, agg.source_last_ts ON DUPLICATE KEY UPDATE root_symbol = VALUES(root_symbol), open = VALUES(open), high = VALUES(high), low = VALUES(low), close = VALUES(close), volume = VALUES(volume), source_count = VALUES(source_count), source_first_ts = VALUES(source_first_ts), source_last_ts = VALUES(source_last_ts), updated_at = CURRENT_TIMESTAMP"@, t);
    }
    assert(has_text(rebuild_symbol_sql_text(table, minutes, has_start, has_end), ("FLOOR(TIMESTAMPDIFF(MINUTE, '1970-01-01 00:00:00', ts_utc) / "@ + int_text(minutes) + ") * "@ + int_text(minutes)))) by {
        let t = ("FLOOR(TIMESTAMPDIFF(MINUTE, '1970-01-01 00:00:00', ts_utc) / "@ + int_text(minutes) + ") * "@ + int_text(minutes));
        let x = "INSERT INTO "@ + table + " (root_symbol, symbol, ts_utc, open, high, low, close, volume, source_count, source_first_ts, source_last_ts) SELECT agg.root_symbol, agg.symbol, agg.bucket_ts AS ts_utc, CAST("@ + "MAX(open_source.open) AS DECIMAL(18,8)) AS open"@ + ", agg.high, agg.low, CAST("@ + "MAX(close_source.close) AS DECIMAL(18,8)) AS close"@ + ", agg.volume, agg.source_count, agg.source_first_ts, agg.source_last_ts FROM (SELECT MAX(root_symbol) AS root_symbol, symbol, TIMESTAMPADD(MINUTE, "@;
        lemma_has_text_end(x, t);
        let x = x + t;
        lemma_has_text_grow(x, ", '1970-01-01 00:00:00') AS bucket_ts, "@, t);
        let x = x + ", '1970-01-01 00:00:00') AS bucket_ts, "@;
        lemma_has_text_grow(x, "MAX(high) AS high"@, t);
        let x = x + "MAX(high) AS high"@;
        lemma_has_text_grow(x, ", "@, t);
        let x = x + ", "@;
        lemma_has_text_grow(x, "MIN(low) AS low"@, t);
        let x = x + "MIN(low) AS low"@;
        lemma_has_text_grow(x, ", "@, t);
        let x = x + ", "@;
        lemma_has_text_grow(x, "COALESCE(SUM(volume), 0) AS volume"@, t);
        let x = x + "COALESCE(SUM(volume), 0) AS volume"@;
        lemma_has_text_grow(x, ", COUNT(*) AS source_count, "@, t);
        let x = x + ", COUNT(*) AS source_count, "@;
        lemma_has_text_grow(x, "MIN(ts_utc) AS source_first_ts"@, t);
        let x = x + "MIN(ts_utc) AS source_first_ts"@;
        lemma_has_text_grow(x, ", "@, t);
        let x = x + ", "@;
        lemma_has_text_grow(x, "MAX(ts_utc) AS source_last_ts"@, t);
        let x = x + "MAX(ts_utc) AS source_last_ts"@;
        lemma_has_text_grow(x, " FROM futures_contract_1m_candles WHERE symbol = ?"@, t);
        let x = x + " FROM futures_contract_1m_candles WHERE symbol = ?"@;
        lemma_has_text_grow(x, range_filter_text(has_start, has_end), t);
        let x = x + range_filter_text(has_start, has_end);
        lemma_has_text_grow(x, " GROUP BY symbol, bucket_ts) agg INNER JOIN futures_contract_1m_candles open_source ON open_source.symbol = agg.symbol AND "@, t);
        let x = x + " GROUP BY symbol, bucket_ts) agg INNER JOIN futures_contract_1m_candles open_source ON open_source.symbol = agg.symbol AND "@;
        lemma_has_text_grow(x, "open_source.ts_utc = agg.source_first_ts"@, t);
        let x = x + "open_source.ts_utc = agg.source_first_ts"@;
        lemma_has_text_grow(x, " INNER JOIN futures_contract_1m_candles close_source ON close_source.symbol = agg.symbol AND "@, t);
        let x = x + " INNER JOIN futures_contract_1m_candles close_source ON close_source.symbol = agg.symbol AND "@;
        lemma_has_text_grow(x, "close_source.ts_utc = agg.source_last_ts"@, t);
        let x = x + "close_source.ts_utc = agg.source_last_ts"@;
        lemma_has_text_grow(x, " GROUP BY agg.root_symbol, agg.symbol, agg.bucket_ts, agg.high, agg.low, agg.volume, agg.source_count, agg.source_first_ts, agg.source_last_ts ON DUPLICATE KEY UPDATE root_symbol = VALUES(root_symbol), open = VALUES(open), high = VALUES(high), low = VALUES(low), close = VALUES(close), volume = VALUES(volume), source_count = VALUES(source_count), source_first_ts = VALUES(source_first_ts), source_last_ts = VALUES(source_last_ts), updated_at = CURRENT_TIMESTAMP"@, t);
    }
    assert(has_text(rebuild_symbol_sql_text(table, minutes, has_start, has_end), "MAX(high) AS high"@)) by {
        let t = "MAX(high) AS high"@;
        let x = "INSERT INTO "@ + table + " (root_symbol, symbol, ts_utc, open, high, low, close, volume, source_count, source_first_ts, source_last_ts) SELECT agg.root_symbol, agg.symbol, agg.bucket_ts AS ts_utc, CAST("@ + "MAX(open_source.open) AS DECIMAL(18,8)) AS open"@ + ", agg.high, agg.low, CAST("@ + "MAX(close_source.close) AS DECIMAL(18,8)) AS close"@ + ", agg.volume, agg.source_count, agg.source_first_ts, agg.source_last_ts FROM (SELECT MAX(root_symbol) AS root_symbol, symbol, TIMESTAMPADD(MINUTE, "@ + ("FLOOR(TIMESTAMPDIFF(MINUTE, '1970-01-01 00:00:00', ts_utc) / "@ + int_text(minutes) + ") * "@ + int_text(minutes)) + ", '1970-01-01 00:00:00') AS bucket_ts, "@;
        lemma_has_text_end(x, t);
        let x = x + t;
        lemma_has_text_grow(x, ", "@, t);
        let x = x + ", "@;
        lemma_has_text_grow(x, "MIN(low) AS low"@, t);
        let x = x + "MIN(low) AS low"@;
        lemma_has_text_grow(x, ", "@, t);
        let x = x + ", "@;
        lemma_has_text_grow(x, "COALESCE(SUM(volume), 0) AS volume"@, t);
        let x = x + "COALESCE(SUM(volume), 0) AS volume"@;
        lemma_has_text_grow(x, ", COUNT(*) AS source_count, "@, t);
        let x = x + ", COUNT(*) AS source_count, "@;
        lemma_has_text_grow(x, "MIN(ts_utc) AS source_first_ts"@, t);
        let x = x + "MIN(ts_utc) AS source_first_ts"@;
        lemma_has_text_grow(x, ", "@, t);
        let x = x + ", "@;
        lemma_has_text_grow(x, "MAX(ts_utc) AS source_last_ts"@, t);
        let x = x + "MAX(ts_utc) AS source_last_ts"@;
        lemma_has_text_grow(x, " FROM futures_contract_1m_candles WHERE symbol = ?"@, t);
        let x = x + " FROM futures_contract_1m_candles WHERE symbol = ?"@;
        lemma_has_text_grow(x, range_filter_text(has_start, has_end), t);
        let x = x + range_filter_text(has_start, has_end);
        lemma_has_text_grow(x, " GROUP BY symbol, bucket_ts) agg INNER JOIN futures_contract_1m_candles open_source ON open_source.symbol = agg.symbol AND "@, t);
        let x = x + " GROUP BY symbol, bucket_ts) agg INNER JOIN futures_contract_1m_candles open_source ON open_source.symbol = agg.symbol AND "@;
        lemma_has_text_grow(x, "open_source.ts_utc = agg.source_first_ts"@, t);
        let x = x + "open_source.ts_utc = agg.source_first_ts"@;
        lemma_has_text_grow(x, " INNER JOIN futures_contract_1m_candles close_source ON close_source.symbol = agg.symbol AND "@, t);
        let x = x + " INNER JOIN futures_contract_1m_candles close_source ON close_source.symbol = agg.symbol AND "@;
        lemma_has_text_grow(x, "close_source.ts_utc = agg.source_last_ts"@, t);
        let x = x + "close_source.ts_utc = agg.source_last_ts"@;
        lemma_has_text_grow(x, " GROUP BY agg.root_symbol, agg.symbol, agg.bucket_ts, agg.high, agg.low, agg.volume, agg.source_count, agg.source_first_ts, agg.source_last_ts ON DUPLICATE KEY UPDATE root_symbol = VALUES(root_symbol), open = VALUES(open), high = VALUES(high), low = VALUES(low), close = VALUES(close), volume = VALUES(volume), source_count = VALUES(source_count), source_first_ts = VALUES(source_first_ts), source_last_ts = VALUES(source_last_ts), updated_at = CURRENT_TIMESTAMP"@, t);
    }
    assert(has_text(rebuild_symbol_sql_text(table, minutes, has_start, has_end), "MIN(low) AS low"@)) by {
        let t = "MIN(low) AS low"@;
        let x = "INSERT INTO "@ + table + " (root_symbol, symbol, ts_utc, open, high, low, close, volume, source_count, source_first_ts, source_last_ts) SELECT agg.root_symbol, agg.symbol, agg.bucket_ts AS ts_utc, CAST("@ + "MAX(open_source.open) AS DECIMAL(18,8)) AS open"@ + ", agg.high, agg.low, CAST("@ + "MAX(close_source.close) AS DECIMAL(18,8)) AS close"@ + ", agg.volume, agg.source_count, agg.source_first_ts, agg.source_last_ts FROM (SELECT MAX(root_symbol) AS root_symbol, symbol, TIMESTAMPADD(MINUTE, "@ + ("FLOOR(TIMESTAMPDIFF(MINUTE, '1970-01-01 00:00:00', ts_utc) / "@ + int_text(minutes) + ") * "@ + int_text(minutes)) + ", '1970-01-01 00:00:00') AS bucket_ts, "@ + "MAX(high) AS high"@ + ", "@;
        lemma_has_text_end(x, t);
        let x = x + t;
        lemma_has_text_grow(x, ", "@, t);
        let x = x + ", "@;
        lemma_has_text_grow(x, "COALESCE(SUM(volume), 0) AS volume"@, t);
        let x = x + "COALESCE(SUM(volume), 0) AS volume"@;
        lemma_has_text_grow(x, ", COUNT(*) AS source_count, "@, t);
        let x = x + ", COUNT(*) AS source_count, "@;
        lemma_has_text_grow(x, "MIN(ts_utc) AS source_first_ts"@, t);
        let x = x + "MIN(ts_utc) AS source_first_ts"@;
        lemma_has_text_grow(x, ", "@, t);
        let x = x + ", "@;
        lemma_has_text_grow(x, "MAX(ts_utc) AS source_last_ts"@, t);
        let x = x + "MAX(ts_utc) AS source_last_ts"@;
        lemma_has_text_grow(x, " FROM futures_contract_1m_candles WHERE symbol = ?"@, t);
        let x = x + " FROM futures_contract_1m_candles WHERE symbol = ?"@;
        lemma_has_text_grow(x, range_filter_text(has_start, has_end), t);
        let x = x + range_filter_text(has_start, has_end);
        lemma_has_text_grow(x, " GROUP BY symbol, bucket_ts) agg INNER JOIN futures_contract_1m_candles open_source ON open_source.symbol = agg.symbol AND "@, t);
        let x = x + " GROUP BY symbol, bucket_ts) agg INNER JOIN futures_contract_1m_candles open_source ON open_source.symbol = agg.symbol AND "@;
        lemma_has_text_grow(x, "open_source.ts_utc = agg.source_first_ts"@, t);
        let x = x + "open_source.ts_utc = agg.source_first_ts"@;
        lemma_has_text_grow(x, " INNER JOIN futures_contract_1m_candles close_source ON close_source.symbol = agg.symbol AND "@, t);
        let x = x + " INNER JOIN futures_contract_1m_candles close_source ON close_source.symbol = agg.symbol AND "@;
        lemma_has_text_grow(x, "close_source.ts_utc = agg.source_last_ts"@, t);
        let x = x + "close_source.ts_utc = agg.source_last_ts"@;
        lemma_has_text_grow(x, " GROUP BY agg.root_symbol, agg.symbol, agg.bucket_ts, agg.high, agg.low, agg.volume, agg.source_count, agg.source_first_ts, agg.source_last_ts ON DUPLICATE KEY UPDATE root_symbol = VALUES(root_symbol), open = VALUES(open), high = VALUES(high), low = VALUES(low), close = VALUES(close), volume = VALUES(volume), source_count = VALUES(source_count), source_first_ts = VALUES(source_first_ts), source_last_ts = VALUES(source_last_ts), updated_at = CURRENT_TIMESTAMP"@, t);
    }
    assert(has_text(rebuild_symbol_sql_text(table, minutes, has_start, has_end), "COALESCE(SUM(volume), 0) AS volume"@)) by {
        let t = "COALESCE(SUM(volume), 0) AS volume"@;
        let x = "INSERT INTO "@ + table + " (root_symbol, symbol, ts_utc, open, high, low, close, volume, source_count, source_first_ts, source_last_ts) SELECT agg.root_symbol, agg.symbol, agg.bucket_ts AS ts_utc, CAST("@ + "MAX(open_source.open) AS DECIMAL(18,8)) AS open"@ + ", agg.high, agg.low, CAST("@ + "MAX(close_source.close) AS DECIMAL(18,8)) AS close"@ + ", agg.volume, agg.source_count, agg.source_first_ts, agg.source_last_ts FROM (SELECT MAX(root_symbol) AS root_symbol, symbol, TIMESTAMPADD(MINUTE, "@ + ("FLOOR(TIMESTAMPDIFF(MINUTE, '1970-01-01 00:00:00', ts_utc) / "@ + int_text(minutes) + ") * "@ + int_text(minutes)) + ", '1970-01-01 00:00:00') AS bucket_ts, "@ + "MAX(high) AS high"@ + ", "@ + "MIN(low) AS low"@ + ", "@;
        lemma_has_text_end(x, t);
        let x = x + t;
        lemma_has_text_grow(x, ", COUNT(*) AS source_count, "@, t);
        let x = x + ", COUNT(*) AS source_count, "@;
        lemma_has_text_grow(x, "MIN(ts_utc) AS source_first_ts"@, t);
        let x = x + "MIN(ts_utc) AS source_first_ts"@;
        lemma_has_text_grow(x, ", "@, t);
        let x = x + ", "@;
        lemma_has_text_grow(x, "MAX(ts_utc) AS source_last_ts"@, t);
        let x = x + "MAX(ts_utc) AS source_last_ts"@;
        lemma_has_text_grow(x, " FROM futures_contract_1m_candles WHERE symbol = ?"@, t);
        let x = x + " FROM futures_contract_1m_candles WHERE symbol = ?"@;
        lemma_has_text_grow(x, range_filter_text(has_start, has_end), t);
        let x = x + range_filter_text(has_start, has_end);
        lemma_has_text_grow(x, " GROUP BY symbol, bucket_ts) agg INNER JOIN futures_contract_1m_candles open_source ON open_source.symbol = agg.symbol AND "@, t);
        let x = x + " GROUP BY symbol, bucket_ts) agg INNER JOIN futures_contract_1m_candles open_source ON open_source.symbol = agg.symbol AND "@;
        lemma_has_text_grow(x, "open_source.ts_utc = agg.source_first_ts"@, t);
        let x = x + "open_source.ts_utc = agg.source_first_ts"@;
        lemma_has_text_grow(x, " INNER JOIN futures_contract_1m_candles close_source ON close_source.symbol = agg.symbol AND "@, t);
        let x = x + " INNER JOIN futures_contract_1m_candles close_source ON close_source.symbol = agg.symbol AND "@;
        lemma_has_text_grow(x, "close_source.ts_utc = agg.source_last_ts"@, t);
        let x = x + "close_source.ts_utc = agg.source_last_ts"@;
        lemma_has_text_grow(x, " GROUP BY agg.root_symbol, agg.symbol, agg.bucket_ts, agg.high, agg.low, agg.volume, agg.source_count, agg.source_first_ts, agg.source_last_ts ON DUPLICATE KEY UPDATE root_symbol = VALUES(root_symbol), open = VALUES(open), high = VALUES(high), low = VALUES(low), close = VALUES(close), volume = VALUES(volume), source_count = VALUES(source_count), source_first_ts = VALUES(source_first_ts), source_last_ts = VALUES(source_last_ts), updated_at = CURRENT_TIMESTAMP"@, t);
    }
    assert(has_text(rebuild_symbol_sql_text(table, minutes, has_start, has_end), "MIN(ts_utc) AS source_first_ts"@)) by {
        let t = "MIN(ts_utc) AS source_first_ts"@;
        let x = "INSERT INTO "@ + table + " (root_symbol, symbol, ts_utc, open, high, low, close, volume, source_count, source_first_ts, source_last_ts) SELECT agg.root_symbol, agg.symbol, agg.bucket_ts AS ts_utc, CAST("@ + "MAX(open_source.open) AS DECIMAL(18,8)) AS open"@ + ", agg.high, agg.low, CAST("@ + "MAX(close_source.close) AS DECIMAL(18,8)) AS close"@ + ", agg.volume, agg.source_count, agg.source_first_ts, agg.source_last_ts FROM (SELECT MAX(root_symbol) AS root_symbol, symbol, TIMESTAMPADD(MINUTE, "@ + ("FLOOR(TIMESTAMPDIFF(MINUTE, '1970-01-01 00:00:00', ts_utc) / "@ + int_text(minutes) + ") * "@ + int_text(minutes)) + ", '1970-01-01 00:00:00') AS bucket_ts, "@ + "MAX(high) AS high"@ + ", "@ + "MIN(low) AS low"@ + ", "@ + "COALESCE(SUM(volume), 0) AS volume"@ + ", COUNT(*) AS source_count, "@;
        lemma_has_text_end(x, t);
        let x = x + t;
        lemma_has_text_grow(x, ", "@, t);
        let x = x + ", "@;
        lemma_has_text_grow(x, "MAX(ts_utc) AS source_last_ts"@, t);
        let x = x + "MAX(ts_utc) AS source_last_ts"@;
        lemma_has_text_grow(x, " FROM futures_contract_1m_candles WHERE symbol = ?"@, t);
        let x = x + " FROM futures_contract_1m_candles WHERE symbol = ?"@;
        lemma_has_text_grow(x, range_filter_text(has_start, has_end), t);
        let x = x + range_filter_text(has_start, has_end);
        lemma_has_text_grow(x, " GROUP BY symbol, bucket_ts) agg INNER JOIN futures_contract_1m_candles open_source ON open_source.symbol = agg.symbol AND "@, t);
        let x = x + " GROUP BY symbol, bucket_ts) agg INNER JOIN futures_contract_1m_candles open_source ON open_source.symbol = agg.symbol AND "@;
        lemma_has_text_grow(x, "open_source.ts_utc = agg.source_first_ts"@, t);
        let x = x + "open_source.ts_utc = agg.source_first_ts"@;
        lemma_has_text_grow(x, " INNER JOIN futures_contract_1m_candles close_source ON close_source.symbol = agg.symbol AND "@, t);
        let x = x + " INNER JOIN futures_contract_1m_candles close_source ON close_source.symbol = agg.symbol AND "@;
        lemma_has_text_grow(x, "close_source.ts_utc = agg.source_last_ts"@, t);
        let x = x + "close_source.ts_utc = agg.source_last_ts"@;
        lemma_has_text_grow(x, " GROUP BY agg.root_symbol, agg.symbol, agg.bucket_ts, agg.high, agg.low, agg.volume, agg.source_count, agg.source_first_ts, agg.source_last_ts ON DUPLICATE KEY UPDATE root_symbol = VALUES(root_symbol), open = VALUES(open), high = VALUES(high), low = VALUES(low), close = VALUES(close), volume = VALUES(volume), source_count = VALUES(source_count), source_first_ts = VALUES(source_first_ts), source_last_ts = VALUES(source_last_ts), updated_at = CURRENT_TIMESTAMP"@, t);
    }
    assert(has_text(rebuild_symbol_sql_text(table, minutes, has_start, has_end), "MAX(ts_utc) AS source_last_ts"@)) by {
        let t = "MAX(ts_utc) AS source_last_ts"@;
        let x = "INSERT INTO "@ + table + " (root_symbol, symbol, ts_utc, open, high, low, close, volume, source_count, source_first_ts, source_last_ts) SELECT agg.root_symbol, agg.symbol, agg.bucket_ts AS ts_utc, CAST("@ + "MAX(open_source.open) AS DECIMAL(18,8)) AS open"@ + ", agg.high, agg.low, CAST("@ + "MAX(close_source.close) AS DECIMAL(18,8)) AS close"@ + ", agg.volume, agg.source_count, agg.source_first_ts, agg.source_last_ts FROM (SELECT MAX(root_symbol) AS root_symbol, symbol, TIMESTAMPADD(MINUTE, "@ + ("FLOOR(TIMESTAMPDIFF(MINUTE, '1970-01-01 00:00:00', ts_utc) / "@ + int_text(minutes) + ") * "@ + int_text(minutes)) + ", '1970-01-01 00:00:00') AS bucket_ts, "@ + "MAX(high) AS high"@ + ", "@ + "MIN(low) AS low"@ + ", "@ + "COALESCE(SUM(volume), 0) AS volume"@ + ", COUNT(*) AS source_count, "@ + "MIN(ts_utc) AS source_first_ts"@ + ", "@;
        lemma_has_text_end(x, t);
        let x = x + t;
        lemma_has_text_grow(x, " FROM futures_contract_1m_candles WHERE symbol = ?"@, t);
        let x = x + " FROM futures_contract_1m_candles WHERE symbol = ?"@;
        lemma_has_text_grow(x, range_filter_text(has_start, has_end), t);
        let x = x + range_filter_text(has_start, has_end);
        lemma_has_text_grow(x, " GROUP BY symbol, bucket_ts) agg INNER JOIN futures_contract_1m_candles open_source ON open_source.symbol = agg.symbol AND "@, t);
        let x = x + " GROUP BY symbol, bucket_ts) agg INNER JOIN futures_contract_1m_candles open_source ON open_source.symbol = agg.symbol AND "@;
        lemma_has_text_grow(x, "open_source.ts_utc = agg.source_first_ts"@, t);
        let x = x + "open_source.ts_utc = agg.source_first_ts"@;
        lemma_has_text_grow(x, " INNER JOIN futures_contract_1m_candles close_source ON close_source.symbol = agg.symbol AND "@, t);
        let x = x + " INNER JOIN futures_contract_1m_candles close_source ON close_source.symbol = agg.symbol AND "@;
        lemma_has_text_grow(x, "close_source.ts_utc = agg.source_last_ts"@, t);
        let x = x + "close_source.ts_utc = agg.source_last_ts"@;
        lemma_has_text_grow(x, " GROUP BY agg.root_symbol, agg.symbol, agg.bucket_ts, agg.high, agg.low, agg.volume, agg.source_count, agg.source_first_ts, agg.source_last_ts ON DUPLICATE KEY UPDATE root_symbol = VALUES(root_symbol), open = VALUES(open), high = VALUES(high), low = VALUES(low), close = VALUES(close), volume = VALUES(volume), source_count = VALUES(source_count), source_first_ts = VALUES(source_first_ts), source_last_ts = VALUES(source_last_ts), updated_at = CURRENT_TIMESTAMP"@, t);
    }
    assert(has_text(rebuild_symbol_sql_text(table, minutes, has_start, has_end), "open_source.ts_utc = agg.source_first_ts"@)) by {
        let t = "open_source.ts_utc = agg.source_first_ts"@;
        let x = "INSERT INTO "@ + table + " (root_symbol, symbol, ts_utc, open, high, low, close, volume, source_count, source_first_ts, source_last_ts) SELECT agg.root_symbol, agg.symbol, agg.bucket_ts AS ts_utc, CAST("@ + "MAX(open_source.open) AS DECIMAL(18,8)) AS open"@ + ", agg.high, agg.low, CAST("@ + "MAX(close_source.close) AS DECIMAL(18,8)) AS close"@ + ", agg.volume, agg.source_count, agg.source_first_ts, agg.source_last_ts FROM (SELECT MAX(root_symbol) AS root_symbol, symbol, TIMESTAMPADD(MINUTE, "@ + ("FLOOR(TIMESTAMPDIFF(MINUTE, '1970-01-01 00:00:00', ts_utc) / "@ + int_text(minutes) + ") * "@ + int_text(minutes)) + ", '1970-01-01 00:00:00') AS bucket_ts, "@ + "MAX(high) AS high"@ + ", "@ + "MIN(low) AS low"@ + ", "@ + "COALESCE(SUM(volume), 0) AS volume"@ + ", COUNT(*) AS source_count, "@ + "MIN(ts_utc) AS source_first_ts"@ + ", "@ + "MAX(ts_utc) AS source_last_ts"@ + " FROM futures_contract_1m_candles WHERE symbol = ?"@ + range_filter_text(has_start, has_end) + " GROUP BY symbol, bucket_ts) agg INNER JOIN futures_contract_1m_candles open_source ON open_source.symbol = agg.symbol AND "@;
        lemma_has_text_end(x, t);
        let x = x + t;
        lemma_has_text_grow(x, " INNER JOIN futures_contract_1m_candles close_source ON close_source.symbol = agg.symbol AND "@, t);
        let x = x + " INNER JOIN futures_contract_1m_candles close_source ON close_source.symbol = agg.symbol AND "@;
        lemma_has_text_grow(x, "close_source.ts_utc = agg.source_last_ts"@, t);
        let x = x + "close_source.ts_utc = agg.source_last_ts"@;
        lemma_has_text_grow(x, " GROUP BY agg.root_symbol, agg.symbol, agg.bucket_ts, agg.high, agg.low, agg.volume, agg.source_count, agg.source_first_ts, agg.source_last_ts ON DUPLICATE KEY UPDATE root_symbol = VALUES(root_symbol), open = VALUES(open), high = VALUES(high), low = VALUES(low), close = VALUES(close), volume = VALUES(volume), source_count = VALUES(source_count), source_first_ts = VALUES(source_first_ts), source_last_ts = VALUES(source_last_ts), updated_at = CURRENT_TIMESTAMP"@, t);
    }
    assert(has_text(rebuild_symbol_sql_text(table, minutes, has_start, has_end), "close_source.ts_utc = agg.source_last_ts"@)) by {
        let t = "close_source.ts_utc = agg.source_last_ts"@;
        let x = "INSERT INTO "@ + table + " (root_symbol, symbol, ts_utc, open, high, low, close, volume, source_count, source_first_ts, source_last_ts) SELECT agg.root_symbol, agg.symbol, agg.bucket_ts AS ts_utc, CAST("@ + "MAX(open_source.open) AS DECIMAL(18,8)) AS open"@ + ", agg.high, agg.low, CAST("@ + "MAX(close_source.close) AS DECIMAL(18,8)) AS close"@ + ", agg.volume, agg.source_count, agg.source_first_ts, agg.source_last_ts FROM (SELECT MAX(root_symbol) AS root_symbol, symbol, TIMESTAMPADD(MINUTE, "@ + ("FLOOR(TIMESTAMPDIFF(MINUTE, '1970-01-01 00:00:00', ts_utc) / "@ + int_text(minutes) + ") * "@ + int_text(minutes)) + ", '1970-01-01 00:00:00') AS bucket_ts, "@ + "MAX(high) AS high"@ + ", "@ + "MIN(low) AS low"@ + ", "@ + "COALESCE(SUM(volume), 0) AS volume"@ + ", COUNT(*) AS source_count, "@ + "MIN(ts_utc) AS source_first_ts"@ + ", "@ + "MAX(ts_utc) AS source_last_ts"@ + " FROM futures_contract_1m_candles WHERE symbol = ?"@ + range_filter_text(has_start, has_end) + " GROUP BY symbol, bucket_ts) agg INNER JOIN futures_contract_1m_candles open_source ON open_source.symbol = agg.symbol AND "@ + "open_source.ts_utc = agg.source_first_ts"@ + " INNER JOIN futures_contract_1m_candles close_source ON close_source.symbol = agg.symbol AND "@;
        lemma_has_text_end(x, t);
        let x = x + t;
        lemma_has_text_grow(x, " GROUP BY agg.root_symbol, agg.symbol, agg.bucket_ts, agg.high, agg.low, agg.volume, agg.source_count, agg.source_first_ts, agg.source_last_ts ON DUPLICATE KEY UPDATE root_symbol = VALUES(root_symbol), open = VALUES(open), high = VALUES(high), low = VALUES(low), close = VALUES(close), volume = VALUES(volume), source_count = VALUES(source_count), source_first_ts = VALUES(source_first_ts), source_last_ts = VALUES(source_last_ts), updated_at = CURRENT_TIMESTAMP"@, t);
    }
    if has_start {
        let t = " AND ts_utc >= ?"@;
        let en: Seq<char> = if has_end { " AND ts_utc < ?"@ } else { Seq::empty() };
        let x = "INSERT INTO "@ + table + " (root_symbol, symbol, ts_utc, open, high, low, close, volume, source_count, source_first_ts, source_last_ts) SELECT agg.root_symbol, agg.symbol, agg.bucket_ts AS ts_utc, CAST("@ + "MAX(open_source.open) AS DECIMAL(18,8)) AS open"@ + ", agg.high, agg.low, CAST("@ + "MAX(close_source.close) AS DECIMAL(18,8)) AS close"@ + ", agg.volume, agg.source_count, agg.source_first_ts, agg.source_last_ts FROM (SELECT MAX(root_symbol) AS root_symbol, symbol, TIMESTAMPADD(MINUTE, "@ + ("FLOOR(TIMESTAMPDIFF(MINUTE, '1970-01-01 00:00:00', ts_utc) / "@ + int_text(minutes) + ") * "@ + int_text(minutes)) + ", '1970-01-01 00:00:00') AS bucket_ts, "@ + "MAX(high) AS high"@ + ", "@ + "MIN(low) AS low"@ + ", "@ + "COALESCE(SUM(volume), 0) AS volume"@ + ", COUNT(*) AS source_count, "@ + "MIN(ts_utc) AS source_first_ts"@ + ", "@ + "MAX(ts_utc) AS source_last_ts"@ + " FROM futures_contract_1m_candles WHERE symbol = ?"@;
        lemma_has_text_between(Seq::empty(), t, en);
        assert(Seq::<char>::empty() + t + en =~= range_filter_text(has_start, has_end));
        lemma_has_text_within(x, range_filter_text(has_start, has_end), Seq::empty(), t);
        let x = x + range_filter_text(has_start, has_end);
        lemma_has_text_grow(x, " GROUP BY symbol, bucket_ts) agg INNER JOIN futures_contract_1m_candles open_source ON open_source.symbol = agg.symbol AND "@, t);
        let x = x + " GROUP BY symbol, bucket_ts) agg INNER JOIN futures_contract_1m_candles open_source ON open_source.symbol = agg.symbol AND "@;
        lemma_has_text_grow(x, "open_source.ts_utc = agg.source_first_ts"@, t);
        let x = x + "open_source.ts_utc = agg.source_first_ts"@;
        lemma_has_text_grow(x, " INNER JOIN futures_contract_1m_candles close_source ON close_source.symbol = agg.symbol AND "@, t);
        let x = x + " INNER JOIN futures_contract_1m_candles close_source ON close_source.symbol = agg.symbol AND "@;
        lemma_has_text_grow(x, "close_source.ts_utc = agg.source_last_ts"@, t);
        let x = x + "close_source.ts_utc = agg.source_last_ts"@;
        lemma_has_text_grow(x, " GROUP BY agg.root_symbol, agg.symbol, agg.bucket_ts, agg.high, agg.low, agg.volume, agg.source_count, agg.source_first_ts, agg.source_last_ts ON DUPLICATE KEY UPDATE root_symbol = VALUES(root_symbol), open = VALUES(open), high = VALUES(high), low = VALUES(low), close = VALUES(close), volume = VALUES(volume), source_count = VALUES(source_count), source_first_ts = VALUES(source_first_ts), source_last_ts = VALUES(source_last_ts), updated_at = CURRENT_TIMESTAMP"@, t);
    }
    if has_end {
        let t = " AND ts_utc < ?"@;
        let st: Seq<char> = if has_start { " AND ts_utc >= ?"@ } else { Seq::empty() };
        let x = "INSERT INTO "@ + table + " (root_symbol, symbol, ts_utc, open, high, low, close, volume, source_count, source_first_ts, source_last_ts) SELECT agg.root_symbol, agg.symbol, agg.bucket_ts AS ts_utc, CAST("@ + "MAX(open_source.open) AS DECIMAL(18,8)) AS open"@ + ", agg.high, agg.low, CAST("@ + "MAX(close_source.close) AS DECIMAL(18,8)) AS close"@ + ", agg.volume, agg.source_count, agg.source_first_ts, agg.source_last_ts FROM (SELECT MAX(root_symbol) AS root_symbol, symbol, TIMESTAMPADD(MINUTE, "@ + ("FLOOR(TIMESTAMPDIFF(MINUTE, '1970-01-01 00:00:00', ts_utc) / "@ + int_text(minutes) + ") * "@ + int_text(minutes)) + ", '1970-01-01 00:00:00') AS bucket_ts, "@ + "MAX(high) AS high"@ + ", "@ + "MIN(low) AS low"@ + ", "@ + "COALESCE(SUM(volume), 0) AS volume"@ + ", COUNT(*) AS source_count, "@ + "MIN(ts_utc) AS source_first_ts"@ + ", "@ + "MAX(ts_utc) AS source_last_ts"@ + " FROM futures_contract_1m_candles WHERE symbol = ?"@;
        lemma_has_text_end(st, t);
        assert(st + t =~= range_filter_text(has_start, has_end));
        lemma_has_text_within(x, range_filter_text(has_start, has_end), Seq::empty(), t);
        let x = x + range_filter_text(has_start, has_end);
        lemma_has_text_grow(x, " GROUP BY symbol, bucket_ts) agg INNER JOIN futures_contract_1m_candles open_source ON open_source.symbol = agg.symbol AND "@, t);
        let x = x + " GROUP BY symbol, bucket_ts) agg INNER JOIN futures_contract_1m_candles open_source ON open_source.symbol = agg.symbol AND "@;
        lemma_has_text_grow(x, "open_source.ts_utc = agg.source_first_ts"@, t);
        let x = x + "open_source.ts_utc = agg.source_first_ts"@;
        lemma_has_text_grow(x, " INNER JOIN futures_contract_1m_candles close_source ON close_source.symbol = agg.symbol AND "@, t);
        let x = x + " INNER JOIN futures_contract_1m_candles close_source ON close_source.symbol = agg.symbol AND "@;
        lemma_has_text_grow(x, "close_source.ts_utc = agg.source_last_ts"@, t);
        let x = x + "close_source.ts_utc = agg.source_last_ts"@;
        lemma_has_text_grow(x, " GROUP BY agg.root_symbol, agg.symbol, agg.bucket_ts, agg.high, agg.low, agg.volume, agg.source_count, agg.source_first_ts, agg.source_last_ts ON DUPLICATE KEY UPDATE root_symbol = VALUES(root_symbol), open = VALUES(open), high = VALUES(high), low = VALUES(low), close = VALUES(close), volume = VALUES(volume), source_count = VALUES(source_count), source_first_ts = VALUES(source_first_ts), source_last_ts = VALUES(source_last_ts), updated_at = CURRENT_TIMESTAMP"@, t);
    }
}

/// The source condition of the XA outcome pattern query: futures tables,
/// the daily table, or none for every source.
pub open spec fn outcome_source_filter(scope: Seq<char>) -> Seq<char> {
    if scope == "futures"@ {
        " AND COALESCE(ps.source_table, '') LIKE 'futures_contract_%_candles'"@
    } else if scope == "daily"@ {
        " AND COALESCE(ps.source_table, '') = 'candles' AND COALESCE(ps.source_timeframe, '') = 'daily'"@
    } else {
        Seq::empty()
    }
}

/// The pattern query of the XA outcome labeller: setups with a D pivot, a
/// length and an XA leg, of the source scope, of one year (one bound
/// parameter) or a range of years (two), of a timeframe where one is given,
/// in confirmation order, limited where a limit is given.
pub open spec fn outcome_patterns_sql_text(scope: Seq<char>, single_year: bool, by_timeframe: bool, limited: bool) -> Seq<char> {
    "SELECT ps.setup_id, ps.pattern_id, ps.pattern_group_id, ps.event_id, ps.symbol, ps.root_symbol, ps.contract_symbol, ps.source_table, ps.source_timeframe, ps.market, ps.pattern_family_key, ps.d_date, CAST(COALESCE(ps.d_confirm_date, ps.d_date) AS DATETIME) AS d_confirm_date, ps.d_min_max AS d_price, COALESCE(ps.xa_price_length, ABS(ps.a_min_max - ps.x_min_max), 0) AS xa_price_length, CAST(ps.full_pattern_length AS SIGNED) AS full_pattern_length FROM pattern_setups ps WHERE ps.d_date IS NOT NULL AND ps.full_pattern_length > 0 AND COALESCE(ps.xa_price_length, ABS(ps.a_min_max - ps.x_min_max), 0) > 0"@
        + outcome_source_filter(scope)
        + (if single_year { " AND YEAR(COALESCE(ps.d_confirm_date, ps.d_date)) = ?"@ } else { " AND YEAR(COALESCE(ps.d_confirm_date, ps.d_date)) BETWEEN ? AND ?"@ })
        + (if by_timeframe { " AND COALESCE(NULLIF(ps.source_timeframe, ''), 'unknown') = ?"@ } else { Seq::empty() })
        + " ORDER BY COALESCE(ps.d_confirm_date, ps.d_date) ASC, ps.setup_id ASC"@
        + (if limited { " LIMIT ?"@ } else { Seq::empty() })
}

/// The SQL text that loads the setups an XA outcome run labels.
pub fn outcome_patterns_sql(scope: &str, single_year: bool, by_timeframe: bool, limited: bool) -> (r: String)
    ensures r@ == outcome_patterns_sql_text(scope@, single_year, by_timeframe, limited),
{
    let mut v = chars_of("SELECT ps.setup_id, ps.pattern_id, ps.pattern_group_id, ps.event_id, ps.symbol, ps.root_symbol, ps.contract_symbol, ps.source_table, ps.source_timeframe, ps.market, ps.pattern_family_key, ps.d_date, CAST(COALESCE(ps.d_confirm_date, ps.d_date) AS DATETIME) AS d_confirm_date, ps.d_min_max AS d_price, COALESCE(ps.xa_price_length, ABS(ps.a_min_max - ps.x_min_max), 0) AS xa_price_length, CAST(ps.full_pattern_length AS SIGNED) AS full_pattern_length FROM pattern_setups ps WHERE ps.d_date IS NOT NULL AND ps.full_pattern_length > 0 AND COALESCE(ps.xa_price_length, ABS(ps.a_min_max - ps.x_min_max), 0) > 0");
    let ghost base = v@;
    let s = chars_of(scope);
    if crate::text::eq_lit(&s, "futures") {
        push_lit(&mut v, " AND COALESCE(ps.source_table, '') LIKE 'futures_contract_%_candles'");
    } else if crate::text::eq_lit(&s, "daily") {
        push_lit(&mut v, " AND COALESCE(ps.source_table, '') = 'candles' AND COALESCE(ps.source_timeframe, '') = 'daily'");
    }
    proof { assert(v@ =~= base + outcome_source_filter(scope@)); }
    let ghost b2 = v@;
    if single_year {
        push_lit(&mut v, " AND YEAR(COALESCE(ps.d_confirm_date, ps.d_date)) = ?");
    } else {
        push_lit(&mut v, " AND YEAR(COALESCE(ps.d_confirm_date, ps.d_date)) BETWEEN ? AND ?");
    }
    let ghost b3 = v@;
    if by_timeframe {
        push_lit(&mut v, " AND COALESCE(NULLIF(ps.source_timeframe, ''), 'unknown') = ?");
    }
    proof {
        if !by_timeframe { assert(v@ =~= b3 + Seq::<char>::empty()); }
    }
    push_lit(&mut v, " ORDER BY COALESCE(ps.d_confirm_date, ps.d_date) ASC, ps.setup_id ASC");
    let ghost b4 = v@;
    if limited {
        push_lit(&mut v, " LIMIT ?");
    }
    proof {
        if !limited { assert(v@ =~= b4 + Seq::<char>::empty()); }
    }
    string_of(&v)
}

/// The labeller's query: a limit only appends `LIMIT ?` to the query
/// without one; the setups are read in confirmation order; the year is one
/// bound year or a bound range of years; a timeframe is bound where one is
/// given; and the futures and daily scopes keep only their sources.
pub proof fn lemma_outcome_query_binds_its_options(scope: Seq<char>, single_year: bool, by_timeframe: bool, limited: bool)
    ensures
        outcome_patterns_sql_text(scope, single_year, by_timeframe, true)
            == outcome_patterns_sql_text(scope, single_year, by_timeframe, false) + " LIMIT ?"@,
        has_text(outcome_patterns_sql_text(scope, single_year, by_timeframe, limited),
            " ORDER BY COALESCE(ps.d_confirm_date, ps.d_date) ASC, ps.setup_id ASC"@),
        single_year ==> has_text(outcome_patterns_sql_text(scope, single_year, by_timeframe, limited),
            " AND YEAR(COALESCE(ps.d_confirm_date, ps.d_date)) = ?"@),
        !single_year ==> has_text(outcome_patterns_sql_text(scope, single_year, by_timeframe, limited),
            " AND YEAR(COALESCE(ps.d_confirm_date, ps.d_date)) BETWEEN ? AND ?"@),
        by_timeframe ==> has_text(outcome_patterns_sql_text(scope, single_year, by_timeframe, limited),
            " AND COALESCE(NULLIF(ps.source_timeframe, ''), 'unknown') = ?"@),
        scope == "futures"@ ==> has_text(outcome_patterns_sql_text(scope, single_year, by_timeframe, limited),
            " AND COALESCE(ps.source_table, '') LIKE 'futures_contract_%_candles'"@),
        scope == "daily"@ ==> has_text(outcome_patterns_sql_text(scope, single_year, by_timeframe, limited),
            " AND COALESCE(ps.source_table, '') = 'candles' AND COALESCE(ps.source_timeframe, '') = 'daily'"@),
{
    let b = "SELECT ps.setup_id, ps.pattern_id, ps.pattern_group_id, ps.event_id, ps.symbol, ps.root_symbol, ps.contract_symbol, ps.source_table, ps.source_timeframe, ps.market, ps.pattern_family_key, ps.d_date, CAST(COALESCE(ps.d_confirm_date, ps.d_date) AS DATETIME) AS d_confirm_date, ps.d_min_max AS d_price, COALESCE(ps.xa_price_length, ABS(ps.a_min_max - ps.x_min_max), 0) AS xa_price_length, CAST(ps.full_pattern_length AS SIGNED) AS full_pattern_length FROM pattern_setups ps WHERE ps.d_date IS NOT NULL AND ps.full_pattern_length > 0 AND COALESCE(ps.xa_price_length, ABS(ps.a_min_max - ps.x_min_max), 0) > 0"@;
    let f = outcome_source_filter(scope);
    let y: Seq<char> = if single_year { " AND YEAR(COALESCE(ps.d_confirm_date, ps.d_date)) = ?"@ } else { " AND YEAR(COALESCE(ps.d_confirm_date, ps.d_date)) BETWEEN ? AND ?"@ };
    let t: Seq<char> = if by_timeframe { " AND COALESCE(NULLIF(ps.source_timeframe, ''), 'unknown') = ?"@ } else { Seq::empty() };
    let o = " ORDER BY COALESCE(ps.d_confirm_date, ps.d_date) ASC, ps.setup_id ASC"@;
    let l: Seq<char> = if limited { " LIMIT ?"@ } else { Seq::empty() };
    assert(outcome_patterns_sql_text(scope, single_year, by_timeframe, false) =~= b + f + y + t + o);
    assert(outcome_patterns_sql_text(scope, single_year, by_timeframe, limited) == b + f + y + t + o + l);
    lemma_has_text_end(b + f + y + t, o);
    lemma_has_text_grow(b + f + y + t + o, l, o);
    lemma_has_text_end(b + f, y);
    lemma_has_text_grow(b + f + y, t, y);
    lemma_has_text_grow(b + f + y + t, o, y);
    lemma_has_text_grow(b + f + y + t + o, l, y);
    lemma_has_text_end(b + f + y, t);
    lemma_has_text_grow(b + f + y + t, o, t);
    lemma_has_text_grow(b + f + y + t + o, l, t);
    if scope == "daily"@ {
        reveal_strlit("daily");
        reveal_strlit("futures");
        assert("daily"@[0] != "futures"@[0]);
    }
    lemma_has_text_end(b, f);
    lemma_has_text_grow(b + f, y, f);
    lemma_has_text_grow(b + f + y, t, f);
    lemma_has_text_grow(b + f + y + t, o, f);
    lemma_has_text_grow(b + f + y + t + o, l, f);
}

} // verus!
