use vstd::prelude::*;
use vstd::string::StringExecFns;

verus! {

/// The external data feeds that quote the supported symbols.
#[derive(Debug, Clone, Copy, PartialEq, Eq, Structural)]
pub enum DataSource {
    Inch1Eth,
    ArkenEth,
    Inch1Bsc,
    ArkenBsc,
}

impl DataSource {
    /// Stable identifier of the feed, as the host knows it.
    pub open spec fn spec_id(self) -> i64 {
        match self {
            DataSource::Inch1Eth => 715,
            DataSource::ArkenEth => 716,
            DataSource::Inch1Bsc => 717,
            DataSource::ArkenBsc => 718,
        }
    }

    #[verifier::when_used_as_spec(spec_id)]
    pub fn id(self) -> (r: i64)
        ensures
            r == self.spec_id(),
    {
        match self {
            DataSource::Inch1Eth => 715,
            DataSource::ArkenEth => 716,
            DataSource::Inch1Bsc => 717,
            DataSource::ArkenBsc => 718,
        }
    }
}

/// Symbols quoted on the Ethereum pair of feeds.
pub open spec fn quoted_on_eth(s: Seq<char>) -> bool {
    s == "WBTC"@ || s == "stETH"@ || s == "wstETH"@ || s == "WETH"@ || s == "XOR"@
        || s == "RLB"@ || s == "VAL"@ || s == "PSWAP"@ || s == "XST"@ || s == "MUTE"@
        || s == "MTRG"@
}

/// Symbols quoted on both BSC feeds.
pub open spec fn quoted_on_bsc(s: Seq<char>) -> bool {
    s == "PHB"@ || s == "BETH"@
}

/// Symbols quoted on the first BSC feed only.
pub open spec fn quoted_on_bsc_first_only(s: Seq<char>) -> bool {
    s == "VC"@
}

/// The registry entry of a symbol: the ordered feeds that quote it, empty
/// when the symbol is not supported.
pub open spec fn data_sources_of(s: Seq<char>) -> Seq<DataSource> {
    if quoted_on_eth(s) {
        seq![DataSource::Inch1Eth, DataSource::ArkenEth]
    } else if quoted_on_bsc_first_only(s) {
        seq![DataSource::Inch1Bsc]
    } else if quoted_on_bsc(s) {
        seq![DataSource::Inch1Bsc, DataSource::ArkenBsc]
    } else {
        seq![]
    }
}

pub open spec fn is_supported(s: Seq<char>) -> bool {
    data_sources_of(s).len() > 0
}

/// Whether feed `d` quotes symbol `s`.
pub open spec fn serves(d: DataSource, s: Seq<char>) -> bool {
    data_sources_of(s).contains(d)
}

/// The requested symbols that feed `d` quotes, in request order, duplicates kept.
pub open spec fn symbols_for(symbols: Seq<Seq<char>>, d: DataSource) -> Seq<Seq<char>>
    decreases symbols.len(),
{
    if symbols.len() == 0 {
        seq![]
    } else {
        let rest = symbols_for(symbols.drop_last(), d);
        if serves(d, symbols.last()) {
            rest.push(symbols.last())
        } else {
            rest
        }
    }
}

/// The group of feed `d`: its id with its symbols, or nothing when it quotes none.
pub open spec fn group_of(symbols: Seq<Seq<char>>, d: DataSource) -> Seq<(i64, Seq<Seq<char>>)> {
    let g = symbols_for(symbols, d);
    if g.len() > 0 {
        seq![(d.spec_id(), g)]
    } else {
        seq![]
    }
}

/// Every feed that quotes a requested symbol, with the symbols it quotes,
/// feeds in a fixed order.
pub open spec fn source_groups(symbols: Seq<Seq<char>>) -> Seq<(i64, Seq<Seq<char>>)> {
    group_of(symbols, DataSource::Inch1Eth) + group_of(symbols, DataSource::ArkenEth)
        + group_of(symbols, DataSource::Inch1Bsc) + group_of(symbols, DataSource::ArkenBsc)
}

/// Whether two strings hold the same characters.
pub fn same_text(a: &str, b: &str) -> (r: bool)
    ensures
        r == (a@ == b@),
{
    let n = a.unicode_len();
    if n != b.unicode_len() {
        return false;
    }
    let mut i: usize = 0;
    while i < n
        invariant
            n == a@.len(),
            n == b@.len(),
            i <= n,
            a@.subrange(0, i as int) == b@.subrange(0, i as int),
        decreases n - i,
    {
        if a.get_char(i) != b.get_char(i) {
            assert(a@[i as int] != b@[i as int]);
            return false;
        }
        assert(a@.subrange(0, i + 1) == a@.subrange(0, i as int).push(a@[i as int]));
        assert(b@.subrange(0, i + 1) == b@.subrange(0, i as int).push(b@[i as int]));
        i = i + 1;
    }
    assert(a@ == a@.subrange(0, n as int));
    assert(b@ == b@.subrange(0, n as int));
    true
}

fn is_quoted_on_eth(s: &str) -> (r: bool)
    ensures
        r == quoted_on_eth(s@),
{
    same_text(s, "WBTC") || same_text(s, "stETH") || same_text(s, "wstETH") || same_text(
        s,
        "WETH",
    ) || same_text(s, "XOR") || same_text(s, "RLB") || same_text(s, "VAL") || same_text(
        s,
        "PSWAP",
    ) || same_text(s, "XST") || same_text(s, "MUTE") || same_text(s, "MTRG")
}

/// Looks up the registry entry of a symbol.
pub fn data_sources_for_symbol(symbol: &str) -> (r: Vec<DataSource>)
    ensures
        r@ == data_sources_of(symbol@),
{
    if is_quoted_on_eth(symbol) {
        vec![DataSource::Inch1Eth, DataSource::ArkenEth]
    } else if same_text(symbol, "VC") {
        vec![DataSource::Inch1Bsc]
    } else if same_text(symbol, "PHB") || same_text(symbol, "BETH") {
        vec![DataSource::Inch1Bsc, DataSource::ArkenBsc]
    } else {
        vec![]
    }
}

/// Whether a symbol has an entry in the registry.
pub fn is_supported_symbol(symbol: &str) -> (r: bool)
    ensures
        r == is_supported(symbol@),
{
    data_sources_for_symbol(symbol).len() > 0
}

fn serves_symbol(d: DataSource, symbol: &str) -> (r: bool)
    ensures
        r == serves(d, symbol@),
{
    let sources = data_sources_for_symbol(symbol);
    let mut i: usize = 0;
    while i < sources.len()
        invariant
            sources@ == data_sources_of(symbol@),
            i <= sources.len(),
            !sources@.subrange(0, i as int).contains(d),
        decreases sources.len() - i,
    {
        if sources[i] == d {
            assert(sources@[i as int] == d);
            return true;
        }
        assert(sources@.subrange(0, i + 1) == sources@.subrange(0, i as int).push(sources@[i as int]));
        i = i + 1;
    }
    assert(sources@ == sources@.subrange(0, sources.len() as int));
    false
}

/// The requested symbols that feed `d` quotes, in request order.
fn symbols_served_by(symbols: &Vec<String>, d: DataSource) -> (r: Vec<String>)
    ensures
        r.deep_view() == symbols_for(symbols.deep_view(), d),
{
    let mut r: Vec<String> = Vec::new();
    let mut i: usize = 0;
    while i < symbols.len()
        invariant
            i <= symbols.len(),
            r.deep_view() == symbols_for(symbols.deep_view().subrange(0, i as int), d),
        decreases symbols.len() - i,
    {
        let ghost pre = symbols.deep_view().subrange(0, i as int);
        let ghost next = symbols.deep_view().subrange(0, i + 1);
        assert(next.drop_last() == pre);
        assert(next.last() == symbols[i as int]@);
        if serves_symbol(d, symbols[i].as_str()) {
            r.push(symbols[i].clone());
        }
        assert(r.deep_view() == symbols_for(next, d));
        i = i + 1;
    }
    assert(symbols.deep_view().subrange(0, symbols.len() as int) == symbols.deep_view());
    r
}

fn push_group(groups: &mut Vec<(i64, Vec<String>)>, symbols: &Vec<String>, d: DataSource)
    ensures
        final(groups).deep_view() == old(groups).deep_view() + group_of(symbols.deep_view(), d),
{
    let served = symbols_served_by(symbols, d);
    if served.len() > 0 {
        groups.push((d.id(), served));
    }
    assert(groups.deep_view() == old(groups).deep_view() + group_of(symbols.deep_view(), d));
}

/// Groups the requested symbols by the feeds that quote them. Each feed that
/// quotes at least one requested symbol appears once, with its symbols in
/// request order (duplicates kept); unsupported symbols appear nowhere.
pub fn get_symbols_for_data_sources(symbols: &Vec<String>) -> (r: Vec<(i64, Vec<String>)>)
    ensures
        r.deep_view() == source_groups(symbols.deep_view()),
{
    let mut groups: Vec<(i64, Vec<String>)> = Vec::new();
    push_group(&mut groups, symbols, DataSource::Inch1Eth);
    push_group(&mut groups, symbols, DataSource::ArkenEth);
    push_group(&mut groups, symbols, DataSource::Inch1Bsc);
    push_group(&mut groups, symbols, DataSource::ArkenBsc);
    assert(groups.deep_view() =~= source_groups(symbols.deep_view()));
    groups
}

/// The symbols written one after another, separated by single spaces.
pub open spec fn space_joined(symbols: Seq<Seq<char>>) -> Seq<char>
    decreases symbols.len(),
{
    if symbols.len() == 0 {
        seq![]
    } else if symbols.len() == 1 {
        symbols[0]
    } else {
        space_joined(symbols.drop_last()) + seq![' '] + symbols.last()
    }
}

/// The payload of the request to a data source: its symbols, space-separated.
pub fn request_payload(symbols: &Vec<String>) -> (r: String)
    ensures
        r@ == space_joined(symbols.deep_view()),
{
    let mut r = String::new();
    let mut i: usize = 0;
    proof {
        reveal_strlit(" ");
        assert(" "@ =~= seq![' ']);
        assert(symbols.deep_view().subrange(0, 0) =~= Seq::<Seq<char>>::empty());
    }
    while i < symbols.len()
        invariant
            i <= symbols@.len(),
            " "@ == seq![' '],
            r@ == space_joined(symbols.deep_view().subrange(0, i as int)),
        decreases symbols.len() - i,
    {
        let ghost next = symbols.deep_view().subrange(0, i + 1);
        assert(next.drop_last() =~= symbols.deep_view().subrange(0, i as int));
        assert(next.last() == symbols@[i as int]@);
        if i > 0 {
            r.append(" ");
        } else {
            assert(r@ + symbols@[0]@ =~= symbols@[0]@);
        }
        r.append(symbols[i].as_str());
        i = i + 1;
    }
    assert(symbols.deep_view().subrange(0, symbols@.len() as int) =~= symbols.deep_view());
    r
}

} // verus!
