//! Swap events: as the query service returns them, and flattened into the
//! rows of a day's artifact.

use vstd::prelude::*;

verus! {

/// An integer of any size, carried as its decimal text so that no digit is
/// lost.
pub type BigInt = String;

/// A decimal number of any precision, carried as its decimal text.
pub type BigDecimal = String;

/// A 20-byte account address.
pub type Bytes = [u8; 20];

#[derive(Clone, Debug, PartialEq, Eq)]
pub struct SwapsSwapsPairToken0 {
    pub id: String,
}

#[derive(Clone, Debug, PartialEq, Eq)]
pub struct SwapsSwapsPairToken1 {
    pub id: String,
}

#[derive(Clone, Debug, PartialEq, Eq)]
pub struct SwapsSwapsPair {
    pub token0: SwapsSwapsPairToken0,
    pub token1: SwapsSwapsPairToken1,
}

#[derive(Clone, Debug, PartialEq, Eq)]
pub struct SwapsSwapsTransaction {
    pub id: String,
    pub block_number: BigInt,
}

/// One swap event in the nested shape of the query's response.
#[derive(Clone, Debug, PartialEq, Eq)]
pub struct SwapsSwaps {
    pub id: String,
    pub to: Bytes,
    pub sender: Bytes,
    pub log_index: Option<BigInt>,
    pub timestamp: BigInt,
    pub amount0_in: BigDecimal,
    pub amount1_in: BigDecimal,
    pub amount0_out: BigDecimal,
    pub amount1_out: BigDecimal,
    pub amount_usd: BigDecimal,
    pub pair: SwapsSwapsPair,
    pub transaction: SwapsSwapsTransaction,
}

/// One swap event as a row: the fields in the order of the artifact's
/// columns.
#[derive(Clone, Debug, PartialEq, Eq)]
pub struct FlatRecord {
    pub id: String,
    pub to: Bytes,
    pub sender: Bytes,
    pub log_index: Option<BigInt>,
    pub timestamp: BigInt,
    pub amount0_in: BigDecimal,
    pub amount1_in: BigDecimal,
    pub amount0_out: BigDecimal,
    pub amount1_out: BigDecimal,
    pub amount_usd: BigDecimal,
    pub token0: String,
    pub token1: String,
    pub txn_id: String,
    pub block_number: BigInt,
}

/// The row that a swap event becomes: every value is kept, the pair's two
/// tokens and the transaction are lifted to the top.
pub open spec fn flattened(swap: SwapsSwaps) -> FlatRecord {
    FlatRecord {
        id: swap.id,
        to: swap.to,
        sender: swap.sender,
        log_index: swap.log_index,
        timestamp: swap.timestamp,
        amount0_in: swap.amount0_in,
        amount1_in: swap.amount1_in,
        amount0_out: swap.amount0_out,
        amount1_out: swap.amount1_out,
        amount_usd: swap.amount_usd,
        token0: swap.pair.token0.id,
        token1: swap.pair.token1.id,
        txn_id: swap.transaction.id,
        block_number: swap.transaction.block_number,
    }
}

impl FlatRecord {
    pub fn from_swapswap(swap: SwapsSwaps) -> (record: Self)
        ensures
            record == flattened(swap),
    {
        FlatRecord {
            id: swap.id,
            to: swap.to,
            sender: swap.sender,
            log_index: swap.log_index,
            timestamp: swap.timestamp,
            amount0_in: swap.amount0_in,
            amount0_out: swap.amount0_out,
            amount1_in: swap.amount1_in,
            amount1_out: swap.amount1_out,
            amount_usd: swap.amount_usd,
            token0: swap.pair.token0.id,
            token1: swap.pair.token1.id,
            txn_id: swap.transaction.id,
            block_number: swap.transaction.block_number,
        }
    }
}

/// The character of a hexadecimal digit, in lower case.
#[verifier::opaque]
pub open spec fn hex_digit(nibble: int) -> char {
    if nibble == 0 {
        '0'
    } else if nibble == 1 {
        '1'
    } else if nibble == 2 {
        '2'
    } else if nibble == 3 {
        '3'
    } else if nibble == 4 {
        '4'
    } else if nibble == 5 {
        '5'
    } else if nibble == 6 {
        '6'
    } else if nibble == 7 {
        '7'
    } else if nibble == 8 {
        '8'
    } else if nibble == 9 {
        '9'
    } else if nibble == 10 {
        'a'
    } else if nibble == 11 {
        'b'
    } else if nibble == 12 {
        'c'
    } else if nibble == 13 {
        'd'
    } else if nibble == 14 {
        'e'
    } else {
        'f'
    }
}

/// Two hexadecimal digits for each byte, the high one first.
pub open spec fn hex_text(bytes: Seq<u8>) -> Seq<char>
    decreases bytes.len(),
{
    if bytes.len() == 0 {
        Seq::empty()
    } else {
        hex_text(bytes.drop_last()) + seq![
            hex_digit(bytes.last() as int / 16),
            hex_digit(bytes.last() as int % 16),
        ]
    }
}

/// An address as it is written to an artifact: `0x` and forty hexadecimal
/// digits.
pub open spec fn address_text(address: Bytes) -> Seq<char> {
    "0x"@ + hex_text(address@)
}

/// The names of the columns of an artifact, in their order.
pub open spec fn column_names() -> Seq<Seq<char>> {
    seq![
        "id"@,
        "to"@,
        "sender"@,
        "log_index"@,
        "timestamp"@,
        "amount0_in"@,
        "amount1_in"@,
        "amount0_out"@,
        "amount1_out"@,
        "amount_usd"@,
        "token0"@,
        "token1"@,
        "txn_id"@,
        "block_number"@,
    ]
}

/// The cells of the row of `record`, in the order of the columns. A number
/// is written with every digit it came with; an event without a log index
/// has an empty cell there.
pub open spec fn row_of(record: FlatRecord) -> Seq<Seq<char>> {
    seq![
        record.id@,
        address_text(record.to),
        address_text(record.sender),
        match record.log_index {
            Some(index) => index@,
            None => Seq::empty(),
        },
        record.timestamp@,
        record.amount0_in@,
        record.amount1_in@,
        record.amount0_out@,
        record.amount1_out@,
        record.amount_usd@,
        record.token0@,
        record.token1@,
        record.txn_id@,
        record.block_number@,
    ]
}

/// The texts that the strings of `cells` hold.
pub open spec fn texts(cells: Seq<String>) -> Seq<Seq<char>> {
    cells.map_values(|cell: String| cell@)
}

fn hex_digit_text(nibble: u8) -> (text: &'static str)
    requires
        nibble < 16,
    ensures
        text@ == seq![hex_digit(nibble as int)],
{
    proof {
        reveal(hex_digit);
        reveal_strlit("0");
        reveal_strlit("1");
        reveal_strlit("2");
        reveal_strlit("3");
        reveal_strlit("4");
        reveal_strlit("5");
        reveal_strlit("6");
        reveal_strlit("7");
        reveal_strlit("8");
        reveal_strlit("9");
        reveal_strlit("a");
        reveal_strlit("b");
        reveal_strlit("c");
        reveal_strlit("d");
        reveal_strlit("e");
        reveal_strlit("f");
    }
    let text = if nibble == 0 {
        "0"
    } else if nibble == 1 {
        "1"
    } else if nibble == 2 {
        "2"
    } else if nibble == 3 {
        "3"
    } else if nibble == 4 {
        "4"
    } else if nibble == 5 {
        "5"
    } else if nibble == 6 {
        "6"
    } else if nibble == 7 {
        "7"
    } else if nibble == 8 {
        "8"
    } else if nibble == 9 {
        "9"
    } else if nibble == 10 {
        "a"
    } else if nibble == 11 {
        "b"
    } else if nibble == 12 {
        "c"
    } else if nibble == 13 {
        "d"
    } else if nibble == 14 {
        "e"
    } else {
        "f"
    };
    assert(text@ =~= seq![hex_digit(nibble as int)]);
    text
}

/// Writes an address as `0x` and forty hexadecimal digits in lower case.
pub fn format_address(address: &Bytes) -> (text: String)
    ensures
        text@ == address_text(*address),
{
    let mut text = "0x".to_string();
    assert(address@.take(0) =~= Seq::<u8>::empty());
    assert(text@ =~= "0x"@ + hex_text(address@.take(0)));
    for i in 0..20usize
        invariant
            text@ == "0x"@ + hex_text(address@.take(i as int)),
    {
        let byte = address[i];
        proof {
            let before = address@.take(i as int);
            let after = address@.take(i + 1);
            assert(after.drop_last() =~= before);
            assert(after.last() == byte);
            assert("0x"@ + hex_text(after) =~= "0x"@ + hex_text(before) + seq![
                hex_digit(byte as int / 16),
            ] + seq![hex_digit(byte as int % 16)]);
        }
        text.append(hex_digit_text(byte / 16));
        text.append(hex_digit_text(byte % 16));
    }
    assert(address@.take(20) =~= address@);
    text
}

/// The first line of an artifact: the names of its columns.
pub fn header() -> (names: Vec<String>)
    ensures
        texts(names@) == column_names(),
{
    let mut names: Vec<String> = Vec::new();
    names.push("id".to_string());
    names.push("to".to_string());
    names.push("sender".to_string());
    names.push("log_index".to_string());
    names.push("timestamp".to_string());
    names.push("amount0_in".to_string());
    names.push("amount1_in".to_string());
    names.push("amount0_out".to_string());
    names.push("amount1_out".to_string());
    names.push("amount_usd".to_string());
    names.push("token0".to_string());
    names.push("token1".to_string());
    names.push("txn_id".to_string());
    names.push("block_number".to_string());
    assert(texts(names@) =~= column_names());
    names
}

impl FlatRecord {
    /// The line of the event in an artifact, cell by cell.
    pub fn to_row(&self) -> (cells: Vec<String>)
        ensures
            texts(cells@) == row_of(*self),
    {
        let mut cells: Vec<String> = Vec::new();
        cells.push(self.id.clone());
        cells.push(format_address(&self.to));
        cells.push(format_address(&self.sender));
        cells.push(
            match &self.log_index {
                Some(index) => index.clone(),
                None => String::new(),
            },
        );
        cells.push(self.timestamp.clone());
        cells.push(self.amount0_in.clone());
        cells.push(self.amount1_in.clone());
        cells.push(self.amount0_out.clone());
        cells.push(self.amount1_out.clone());
        cells.push(self.amount_usd.clone());
        cells.push(self.token0.clone());
        cells.push(self.token1.clone());
        cells.push(self.txn_id.clone());
        cells.push(self.block_number.clone());
        assert(texts(cells@) =~= row_of(*self));
        cells
    }
}

/// The lines of an artifact: the names of the columns and then a line for
/// each row, in order. An artifact without rows has no line at all.
pub open spec fn table_of(rows: Seq<FlatRecord>) -> Seq<Seq<Seq<char>>> {
    if rows.len() == 0 {
        Seq::empty()
    } else {
        seq![column_names()] + rows.map_values(|row: FlatRecord| row_of(row))
    }
}

/// The texts that the cells of `lines` hold.
pub open spec fn line_texts(lines: Seq<Vec<String>>) -> Seq<Seq<Seq<char>>> {
    lines.map_values(|line: Vec<String>| texts(line@))
}

/// The lines to write for the rows of a day.
pub fn table(rows: &Vec<FlatRecord>) -> (lines: Vec<Vec<String>>)
    ensures
        line_texts(lines@) == table_of(rows@),
{
    let mut lines: Vec<Vec<String>> = Vec::new();
    if rows.len() == 0 {
        assert(line_texts(lines@) =~= table_of(rows@));
        return lines;
    }
    lines.push(header());
    assert(line_texts(lines@) =~= seq![column_names()]);
    for i in 0..rows.len()
        invariant
            line_texts(lines@) == seq![column_names()] + rows@.take(i as int).map_values(
                |row: FlatRecord| row_of(row),
            ),
    {
        let ghost before = lines@;
        let line = rows[i].to_row();
        let ghost cells = line@;
        lines.push(line);
        proof {
            let rendered = |row: FlatRecord| row_of(row);
            assert(line_texts(lines@) =~= line_texts(before).push(texts(cells)));
            assert(rows@.take(i + 1) =~= rows@.take(i as int).push(rows@[i as int]));
            assert(rows@.take(i + 1).map_values(rendered) =~= rows@.take(i as int).map_values(
                rendered,
            ).push(row_of(rows@[i as int])));
        }
    }
    assert(rows@.take(rows@.len() as int) =~= rows@);
    lines
}

/// The rows of a day's result: one per event, in the order of arrival.
pub fn flatten_results(results: Vec<SwapsSwaps>) -> (rows: Vec<FlatRecord>)
    ensures
        rows@ == results@.map_values(|swap: SwapsSwaps| flattened(swap)),
{
    let mut rows: Vec<FlatRecord> = Vec::new();
    let ghost all = results@;
    for swap in it: results
        invariant
            all == it.seq(),
            rows@ == all.take(it.index() as int).map_values(|swap: SwapsSwaps| flattened(swap)),
    {
        rows.push(FlatRecord::from_swapswap(swap));
        assert(rows@ =~= all.take(it.index() + 1).map_values(|swap: SwapsSwaps| flattened(swap)));
    }
    assert(all.take(all.len() as int) =~= all);
    rows
}

} // verus!
