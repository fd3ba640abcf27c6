//! What the gateway reads about its host: memory, disk, kernel and services.
use crate::text::{
    after_prefix, blank_texts_have_no_words, cat3, decimal, decimal_reads_back, halves, is_blank,
    is_digit, is_space, lemma_decimal_digits, lines, number, opt_view, parse_number, same,
    split_lines, split_once, split_words, strip_char, strip_end, strip_prefix, strip_start,
    texts_fall_apart_at_the_first, trim, trimmed, views, words, words_end_at_space,
};
use vstd::prelude::*;

verus! {

// ── Memory ───────────────────────────────────────────────────────────────────

/// The number at the start of the rest of a line, or zero.
pub open spec fn leading_number(rest: Seq<char>) -> nat {
    if words(rest).len() == 0 {
        0
    } else {
        match number(words(rest)[0], u64::MAX as nat) {
            Some(n) => n,
            None => 0,
        }
    }
}

/// The number at the start of the rest of a line, or zero.
fn read_leading_number(rest: &str) -> (out: u64)
    ensures
        out == leading_number(rest@),
{
    let parts = split_words(rest);
    if parts.len() == 0 {
        return 0;
    }
    assert(words(rest@)[0] == parts@[0]@);
    match parse_number(parts[0].as_str(), u64::MAX) {
        Some(n) => n,
        None => 0,
    }
}

/// The total and the available memory that lines of `/proc/meminfo` give; of
/// lines that repeat, the last one counts.
pub open spec fn memory_of_lines(ls: Seq<Seq<char>>) -> (nat, nat)
    decreases ls.len(),
{
    if ls.len() == 0 {
        (0, 0)
    } else {
        let before = memory_of_lines(ls.drop_last());
        match after_prefix(ls.last(), "MemTotal:"@) {
            Some(rest) => (leading_number(rest), before.1),
            None => match after_prefix(ls.last(), "MemAvailable:"@) {
                Some(rest) => (before.0, leading_number(rest)),
                None => before,
            },
        }
    }
}

/// The used and the total memory in MiB, of a total and an available amount in
/// KiB.
pub open spec fn memory_mb(total: nat, available: nat) -> (nat, nat) {
    ((if total >= available {
        (total - available) as nat
    } else {
        0
    }) / 1024, total / 1024)
}

/// The used and the total memory in MiB, from the text of `/proc/meminfo`.
pub fn parse_mem_mb(meminfo: &str) -> (out: (u64, u64))
    ensures
        ({
            let amounts = memory_of_lines(lines(meminfo@));
            (out.0 as nat, out.1 as nat) == memory_mb(amounts.0, amounts.1)
        }),
{
    let mut total: u64 = 0;
    let mut available: u64 = 0;
    let ls = split_lines(meminfo);
    let mut i: usize = 0;
    assert(views(ls@).take(0) =~= Seq::<Seq<char>>::empty());
    while i < ls.len()
        invariant
            i <= ls@.len(),
            (total as nat, available as nat) == memory_of_lines(views(ls@).take(i as int)),
        decreases ls@.len() - i,
    {
        proof {
            let t = views(ls@).take(i + 1);
            assert(t.drop_last() =~= views(ls@).take(i as int));
            assert(t.last() == ls@[i as int]@);
        }
        match strip_prefix(ls[i].as_str(), "MemTotal:") {
            Some(rest) => {
                total = read_leading_number(rest.as_str());
            },
            None => match strip_prefix(ls[i].as_str(), "MemAvailable:") {
                Some(rest) => {
                    available = read_leading_number(rest.as_str());
                },
                None => {},
            },
        }
        i += 1;
    }
    assert(views(ls@).take(i as int) =~= views(ls@));
    (total.saturating_sub(available) / 1024, total / 1024)
}

/// No more memory is shown as used than there is.
pub proof fn used_memory_fits(total: nat, available: nat)
    ensures
        memory_mb(total, available).0 <= memory_mb(total, available).1,
{
}

// ── File system ──────────────────────────────────────────────────────────────

/// The product of two counts, or the largest count.
pub open spec fn capped_product(a: u64, b: u64) -> nat {
    if a * b <= u64::MAX {
        (a * b) as nat
    } else {
        u64::MAX as nat
    }
}

/// The product of two counts, or the largest count.
fn saturating_product(a: u64, b: u64) -> (out: u64)
    ensures
        out == capped_product(a, b),
{
    match a.checked_mul(b) {
        Some(n) => n,
        None => u64::MAX,
    }
}

/// The free and the total space in MiB of a file system with `blocks` blocks,
/// `available` of them free, of `fragment_size` bytes, or of `block_size` bytes
/// where the fragment size is not given.
pub fn fs_space_mb(
    fragment_size: u64,
    block_size: u64,
    blocks: u64,
    available: u64,
) -> (out: (u64, u64))
    ensures
        ({
            let size = if fragment_size > 0 {
                fragment_size
            } else {
                block_size
            };
            &&& out.0 == capped_product(available, size) / 1024 / 1024
            &&& out.1 == capped_product(blocks, size) / 1024 / 1024
        }),
{
    let size: u64 = if fragment_size > 0 {
        fragment_size
    } else {
        block_size
    };
    let total = saturating_product(blocks, size);
    let free = saturating_product(available, size);
    (free / 1024 / 1024, total / 1024 / 1024)
}

/// Where no more blocks are free than there are, no more space is shown as free
/// than there is.
pub proof fn free_space_fits(size: u64, blocks: u64, available: u64)
    requires
        available <= blocks,
    ensures
        capped_product(available, size) / 1024 / 1024 <= capped_product(blocks, size) / 1024 / 1024,
{
    assert(available * size <= blocks * size) by (nonlinear_arith)
        requires
            available <= blocks,
    ;
}

// ── Identity of the host ─────────────────────────────────────────────────────

/// The name of the system and of its kernel, as far as they are known.
pub open spec fn os_details(os_name: Seq<char>, kernel: Seq<char>) -> Seq<char> {
    if os_name.len() > 0 && kernel.len() > 0 {
        os_name + " / "@ + kernel
    } else if os_name.len() > 0 {
        os_name
    } else if kernel.len() > 0 {
        kernel
    } else {
        "Unknown"@
    }
}

/// The name of the system and of its kernel, as far as they are known.
pub fn read_os_details(os_name: String, kernel: String) -> (out: String)
    ensures
        out@ == os_details(os_name@, kernel@),
{
    let no_name = os_name.as_str().is_empty();
    let no_kernel = kernel.as_str().is_empty();
    if !no_name && !no_kernel {
        cat3(os_name.as_str(), " / ", kernel.as_str())
    } else if !no_name {
        os_name
    } else if !no_kernel {
        kernel
    } else {
        "Unknown".to_owned()
    }
}

/// The text without white space around it, or `Unknown` where none is left.
pub open spec fn named_or_unknown(text: Seq<char>) -> Seq<char> {
    if trim(text).len() > 0 {
        trim(text)
    } else {
        "Unknown"@
    }
}

/// The host name, from the text of `/etc/hostname`.
pub fn parse_hostname(text: &str) -> (out: String)
    ensures
        out@ == named_or_unknown(text@),
{
    let value = trimmed(text);
    if value.as_str().is_empty() {
        "Unknown".to_owned()
    } else {
        value
    }
}

/// The architecture of the host: what the kernel says without white space
/// around it, or `usual` where that is nothing.
pub fn read_architecture(machine: Option<&str>, usual: &str) -> (out: String)
    ensures
        out@ == (match machine {
            Some(machine) => if trim(machine@).len() > 0 {
                trim(machine@)
            } else {
                usual@
            },
            None => usual@,
        }),
{
    if let Some(machine) = machine {
        let value = trimmed(machine);
        if !value.as_str().is_empty() {
            return value;
        }
    }
    usual.to_owned()
}

/// The directory whose file system is measured: the home directory where it
/// exists, else the current directory, else the root.
pub fn user_filesystem_probe_path(
    home: Option<String>,
    home_exists: bool,
    current_dir: Option<String>,
) -> (out: String)
    ensures
        out@ == (if home is Some && home_exists {
            home->0@
        } else if current_dir is Some {
            current_dir->0@
        } else {
            "/"@
        }),
{
    match home {
        Some(home) if home_exists => home,
        _ => match current_dir {
            Some(dir) => dir,
            None => "/".to_owned(),
        },
    }
}

// ── Processor ────────────────────────────────────────────────────────────────

/// The first value that is not blank for a key, among lines `key : value`.
pub open spec fn value_of_key(ls: Seq<Seq<char>>, key: Seq<char>) -> Option<Seq<char>>
    decreases ls.len(),
{
    if ls.len() == 0 {
        None
    } else {
        match halves(ls[0], ':') {
            Some((name, value)) => if trim(name) == key && trim(value).len() > 0 {
                Some(trim(value))
            } else {
                value_of_key(ls.skip(1), key)
            },
            None => value_of_key(ls.skip(1), key),
        }
    }
}

/// The first value that is not blank for a key.
fn find_value(ls: &Vec<String>, key: &str) -> (out: Option<String>)
    ensures
        opt_view(out) == value_of_key(views(ls@), key@),
{
    let ghost all = views(ls@);
    let mut i: usize = 0;
    assert(all.skip(0) =~= all);
    while i < ls.len()
        invariant
            i <= ls@.len(),
            all == views(ls@),
            value_of_key(all.skip(i as int), key@) == value_of_key(all, key@),
        decreases ls@.len() - i,
    {
        proof {
            assert(all.skip(i as int)[0] == ls@[i as int]@);
            assert(all.skip(i as int).skip(1) =~= all.skip(i + 1));
        }
        match split_once(ls[i].as_str(), ':') {
            Some((name, value)) => {
                let name = trimmed(name.as_str());
                let value = trimmed(value.as_str());
                if same(name.as_str(), key) && !value.as_str().is_empty() {
                    return Some(value);
                }
            },
            None => {},
        }
        i += 1;
    }
    assert(all.skip(i as int) =~= Seq::<Seq<char>>::empty());
    None
}

/// The model of the processor that lines of `/proc/cpuinfo` give.
pub open spec fn cpu_model(ls: Seq<Seq<char>>) -> Seq<char> {
    if let Some(value) = value_of_key(ls, "model name"@) {
        value
    } else if let Some(value) = value_of_key(ls, "Hardware"@) {
        value
    } else if let Some(value) = value_of_key(ls, "Processor"@) {
        value
    } else if let Some(value) = value_of_key(ls, "Model"@) {
        value
    } else {
        "Unknown"@
    }
}

/// The model of the processor, from the text of `/proc/cpuinfo`.
pub fn parse_cpu_model(cpuinfo: &str) -> (out: String)
    ensures
        out@ == cpu_model(lines(cpuinfo@)),
{
    let ls = split_lines(cpuinfo);
    if let Some(value) = find_value(&ls, "model name") {
        return value;
    }
    if let Some(value) = find_value(&ls, "Hardware") {
        return value;
    }
    if let Some(value) = find_value(&ls, "Processor") {
        return value;
    }
    if let Some(value) = find_value(&ls, "Model") {
        return value;
    }
    "Unknown".to_owned()
}

/// The largest of the numbers that texts spell, or zero.
pub open spec fn largest(texts: Seq<Seq<char>>) -> nat
    decreases texts.len(),
{
    if texts.len() == 0 {
        0
    } else {
        let before = largest(texts.drop_last());
        match number(trim(texts.last()), u64::MAX as nat) {
            Some(n) => if n > before {
                n
            } else {
                before
            },
            None => before,
        }
    }
}

/// The clock of the fastest core in MHz, from the clocks of the cores in kHz;
/// none where no clock is known. Only the low 32 bits are kept.
pub fn fastest_core_mhz(readings: &Vec<String>) -> (out: Option<u32>)
    ensures
        out == (if largest(views(readings@)) > 0 {
            Some(((largest(views(readings@)) / 1000) % 0x1_0000_0000) as u32)
        } else {
            None
        }),
{
    let ghost all = views(readings@);
    let mut max_khz: u64 = 0;
    let mut i: usize = 0;
    assert(all.take(0) =~= Seq::<Seq<char>>::empty());
    while i < readings.len()
        invariant
            i <= readings@.len(),
            all == views(readings@),
            max_khz == largest(all.take(i as int)),
        decreases readings@.len() - i,
    {
        proof {
            assert(all.take(i + 1).drop_last() =~= all.take(i as int));
            assert(all.take(i + 1).last() == readings@[i as int]@);
        }
        let text = trimmed(readings[i].as_str());
        match parse_number(text.as_str(), u64::MAX) {
            Some(khz) => {
                if khz > max_khz {
                    max_khz = khz;
                }
            },
            None => {},
        }
        i += 1;
    }
    assert(all.take(i as int) =~= all);
    if max_khz > 0 {
        let mhz: u64 = max_khz / 1000;
        assert(mhz as u32 == mhz % 0x1_0000_0000) by (bit_vector);
        Some(
            #[verifier::truncate]
            (mhz as u32),
        )
    } else {
        None
    }
}

/// The numbers among texts, in order.
pub open spec fn numbers(texts: Seq<Seq<char>>) -> Seq<nat>
    decreases texts.len(),
{
    if texts.len() == 0 {
        Seq::empty()
    } else {
        match number(texts.last(), u64::MAX as nat) {
            Some(n) => numbers(texts.drop_last()).push(n),
            None => numbers(texts.drop_last()),
        }
    }
}

/// The sum of numbers.
pub open spec fn sum(ns: Seq<nat>) -> nat
    decreases ns.len(),
{
    if ns.len() == 0 {
        0
    } else {
        sum(ns.drop_last()) + ns.last()
    }
}

/// The idle and the total time of the processor that the lines of `/proc/stat`
/// give: the fourth number of the first line, and the sum of its numbers.
pub open spec fn cpu_times(ls: Seq<Seq<char>>) -> Option<(nat, nat)> {
    if ls.len() == 0 || words(ls[0]).len() == 0 {
        None
    } else {
        let ns = numbers(words(ls[0]).skip(1));
        if ns.len() < 4 {
            None
        } else {
            Some((ns[3], sum(ns)))
        }
    }
}

/// What optional processor times stand for.
pub open spec fn times_view(times: Option<(u64, u128)>) -> Option<(nat, nat)> {
    match times {
        Some((idle, total)) => Some((idle as nat, total as nat)),
        None => None,
    }
}

/// The idle and the total time of the processor, from the text of `/proc/stat`.
pub fn parse_stat(stat: &str) -> (out: Option<(u64, u128)>)
    ensures
        times_view(out) == cpu_times(lines(stat@)),
{
    let ls = split_lines(stat);
    assert(views(ls@).len() == ls@.len());
    if ls.len() == 0 {
        return None;
    }
    assert(lines(stat@)[0] == ls@[0]@);
    let parts = split_words(ls[0].as_str());
    assert(views(parts@).len() == parts@.len());
    let count = parts.len();
    if count == 0 {
        return None;
    }
    let ghost all = views(parts@).skip(1);
    let mut seen: usize = 0;
    let mut idle: u64 = 0;
    let mut total: u128 = 0;
    let mut i: usize = 1;
    assert(all.take(0) =~= Seq::<Seq<char>>::empty());
    while i < parts.len()
        invariant
            1 <= i <= parts@.len(),
            count == parts@.len(),
            all == views(parts@).skip(1),
            seen == numbers(all.take(i - 1)).len(),
            seen <= i - 1,
            seen >= 4 ==> idle == numbers(all.take(i - 1))[3],
            total == sum(numbers(all.take(i - 1))),
            total <= (i - 1) * 0xffff_ffff_ffff_ffff,
        decreases parts@.len() - i,
    {
        proof {
            assert(all.take(i as int).drop_last() =~= all.take(i - 1));
            assert(all.take(i as int).last() == parts@[i as int]@);
            assert((i - 1) * 0xffff_ffff_ffff_ffff <= 0xffff_ffff_ffff_ffff
                * 0xffff_ffff_ffff_ffff);
        }
        match parse_number(parts[i].as_str(), u64::MAX) {
            Some(n) => {
                proof {
                    let before = numbers(all.take(i - 1));
                    assert(before.push(n as nat).drop_last() =~= before);
                }
                if seen == 3 {
                    idle = n;
                }
                seen += 1;
                total = total + n as u128;
            },
            None => {},
        }
        i += 1;
    }
    assert(all.take(i - 1) =~= all);
    if seen < 4 {
        None
    } else {
        Some((idle, total))
    }
}

// ── Name of the system ───────────────────────────────────────────────────────

/// The name of the system that lines of `/etc/os-release` give, without the
/// quotes around it.
pub open spec fn pretty_name(ls: Seq<Seq<char>>) -> Option<Seq<char>>
    decreases ls.len(),
{
    if ls.len() == 0 {
        None
    } else {
        match after_prefix(ls[0], "PRETTY_NAME="@) {
            Some(value) => Some(strip_end(strip_start(value, '"'), '"')),
            None => pretty_name(ls.skip(1)),
        }
    }
}

/// The name of the system, from the text of `/etc/os-release`.
pub fn parse_os_name(os_release: &str) -> (out: Option<String>)
    ensures
        opt_view(out) == pretty_name(lines(os_release@)),
{
    let ls = split_lines(os_release);
    let ghost all = views(ls@);
    let mut i: usize = 0;
    assert(all.skip(0) =~= all);
    while i < ls.len()
        invariant
            i <= ls@.len(),
            all == views(ls@),
            all == lines(os_release@),
            pretty_name(all.skip(i as int)) == pretty_name(all),
        decreases ls@.len() - i,
    {
        proof {
            assert(all.skip(i as int)[0] == ls@[i as int]@);
            assert(all.skip(i as int).skip(1) =~= all.skip(i + 1));
        }
        match strip_prefix(ls[i].as_str(), "PRETTY_NAME=") {
            Some(value) => {
                return Some(strip_char(value.as_str(), '"'));
            },
            None => {},
        }
        i += 1;
    }
    assert(all.skip(i as int) =~= Seq::<Seq<char>>::empty());
    None
}

// ── Laws ─────────────────────────────────────────────────────────────────────

/// The amounts of memory are read from the lines that name them, in whatever order
/// they come; other lines do not count.
pub proof fn memory_is_read_by_name(ls: Seq<Seq<char>>, rest: Seq<char>)
    ensures
        memory_of_lines(ls.push("MemTotal:"@ + rest)) == (
            leading_number(rest),
            memory_of_lines(ls).1,
        ),
        memory_of_lines(ls.push("MemAvailable:"@ + rest)) == (
            memory_of_lines(ls).0,
            leading_number(rest),
        ),
        rest.len() == 0 || rest[0] != 'M' ==> memory_of_lines(ls.push(rest)) == memory_of_lines(ls),
        memory_of_lines(Seq::empty()) == (0nat, 0nat),
{
    reveal_strlit("MemTotal:");
    reveal_strlit("MemAvailable:");
    let total = "MemTotal:"@ + rest;
    let available = "MemAvailable:"@ + rest;
    assert(ls.push(total).drop_last() =~= ls);
    assert(ls.push(available).drop_last() =~= ls);
    assert(ls.push(rest).drop_last() =~= ls);
    assert(total.skip("MemTotal:"@.len() as int) =~= rest);
    assert(available.skip("MemAvailable:"@.len() as int) =~= rest);
    assert("MemTotal:"@.is_prefix_of(total));
    assert("MemAvailable:"@.is_prefix_of(available));
    if "MemTotal:"@.is_prefix_of(available) {
        assert("MemTotal:"@ =~= available.take(9));
        assert(available.take(9)[3] == 'A');
    }
    if "MemTotal:"@.is_prefix_of(rest) {
        assert("MemTotal:"@ =~= rest.take(9));
        assert(rest.take(9)[0] == rest[0]);
    }
    if "MemAvailable:"@.is_prefix_of(rest) {
        assert("MemAvailable:"@ =~= rest.take(13));
        assert(rest.take(13)[0] == rest[0]);
    }
}

/// An amount is the number at the start of its line, whatever unit follows it.
pub proof fn amounts_are_the_leading_number(space: Seq<char>, n: u64, rest: Seq<char>)
    requires
        is_blank(space),
        rest.len() > 0 ==> is_space(rest[0]),
    ensures
        leading_number(space + decimal(n as nat) + rest) == n,
{
    lemma_decimal_digits(n as nat);
    assert forall|k: int| 0 <= k < decimal(n as nat).len() implies !is_space(
        #[trigger] decimal(n as nat)[k],
    ) by {
        assert(is_digit(decimal(n as nat)[k]));
    }
    words_end_at_space(space, decimal(n as nat), rest);
    decimal_reads_back(n as nat, u64::MAX as nat);
}

/// Memory is shown in units of 1024: what is used and what there is.
pub proof fn memory_is_shown_in_megabytes(used: nat, available: nat)
    ensures
        memory_mb(used * 1024 + available, available) == (used, (used * 1024 + available) / 1024),
        memory_mb(used, available).1 == used / 1024,
        used <= available ==> memory_mb(used, available).0 == 0,
{
    assert((used * 1024) / 1024 == used);
}

/// What stands behind the first line with a key is its value, without the space
/// round it; lines before it that lack the key do not matter.
pub proof fn values_are_found_by_key(
    ls: Seq<Seq<char>>,
    name: Seq<char>,
    value: Seq<char>,
    rest: Seq<Seq<char>>,
)
    requires
        !name.contains(':'),
        trim(value).len() > 0,
        value_of_key(ls, trim(name)) is None,
    ensures
        value_of_key(ls + seq![name + seq![':'] + value] + rest, trim(name)) == Some(trim(value)),
    decreases ls.len(),
{
    let line = name + seq![':'] + value;
    let all = ls + seq![line] + rest;
    if ls.len() == 0 {
        assert(all[0] == line);
        texts_fall_apart_at_the_first(name, ':', value);
    } else {
        assert(all[0] == ls[0]);
        assert(all.skip(1) =~= ls.skip(1) + seq![line] + rest);
        values_are_found_by_key(ls.skip(1), name, value, rest);
    }
}

/// The name of the processor is looked for under four keys, one after the other.
pub proof fn processors_are_named_by_the_first_key(ls: Seq<Seq<char>>)
    ensures
        value_of_key(ls, "model name"@) matches Some(name) ==> cpu_model(ls) == name,
        value_of_key(ls, "model name"@) is None && value_of_key(ls, "Hardware"@) is Some
            ==> cpu_model(ls) == value_of_key(ls, "Hardware"@)->Some_0,
        value_of_key(ls, "model name"@) is None && value_of_key(ls, "Hardware"@) is None
            && value_of_key(ls, "Processor"@) is Some ==> cpu_model(ls) == value_of_key(
            ls,
            "Processor"@,
        )->Some_0,
        value_of_key(ls, "model name"@) is None && value_of_key(ls, "Hardware"@) is None
            && value_of_key(ls, "Processor"@) is None && value_of_key(ls, "Model"@) is Some
            ==> cpu_model(ls) == value_of_key(ls, "Model"@)->Some_0,
        value_of_key(ls, "model name"@) is None && value_of_key(ls, "Hardware"@) is None
            && value_of_key(ls, "Processor"@) is None && value_of_key(ls, "Model"@) is None
            ==> cpu_model(ls) == "Unknown"@,
{
}

/// The largest of some readings is at least each of them, and one of them, unless
/// none is a number above zero.
pub proof fn the_largest_reading_is_one_of_them(texts: Seq<Seq<char>>)
    ensures
        forall|i: int|
            0 <= i < texts.len() ==> (number(trim(#[trigger] texts[i]), u64::MAX as nat) matches Some(
                n,
            ) ==> n <= largest(texts)),
        largest(texts) > 0 ==> exists|i: int|
            0 <= i < texts.len() && number(trim(#[trigger] texts[i]), u64::MAX as nat) == Some(
                largest(texts),
            ),
    decreases texts.len(),
{
    if texts.len() > 0 {
        let rest = texts.drop_last();
        the_largest_reading_is_one_of_them(rest);
        assert(texts[texts.len() - 1] == texts.last());
        assert(forall|i: int| 0 <= i < rest.len() ==> #[trigger] rest[i] == texts[i]);
        assert forall|i: int| 0 <= i < texts.len() implies (number(
            trim(#[trigger] texts[i]),
            u64::MAX as nat,
        ) matches Some(n) ==> n <= largest(texts)) by {
            if i < rest.len() {
                assert(rest[i] == texts[i]);
            }
        }
        if largest(texts) > 0 && largest(texts) == largest(rest) {
            let i = choose|i: int|
                0 <= i < rest.len() && number(trim(#[trigger] rest[i]), u64::MAX as nat) == Some(
                    largest(rest),
                );
            assert(texts[i] == rest[i]);
        }
    }
}

/// The times of the processor are the numbers of the first line: the idle time is
/// the fourth of them, and the total is the sum of all.
pub proof fn processor_times_are_the_numbers_of_the_first_line(ls: Seq<Seq<char>>, ns: Seq<u64>)
    requires
        ls.len() > 0,
        words(ls[0]).len() == ns.len() + 1,
        forall|i: int|
            0 <= i < ns.len() ==> words(ls[0])[i + 1] == decimal((#[trigger] ns[i]) as nat),
        ns.len() >= 4,
    ensures
        cpu_times(ls) matches Some((idle, total)) && idle == ns[3] && total == sum(
            ns.map_values(|n: u64| n as nat),
        ) && idle <= total,
{
    let texts = words(ls[0]).skip(1);
    assert forall|i: int| 0 <= i < ns.len() implies #[trigger] texts[i] == decimal(
        ns[i] as nat,
    ) by {
        assert(words(ls[0])[i + 1] == decimal(ns[i] as nat));
    }
    lemma_numbers(texts, ns);
    let all = ns.map_values(|n: u64| n as nat);
    lemma_sum_is_at_least(all, 3);
}

proof fn lemma_numbers(texts: Seq<Seq<char>>, ns: Seq<u64>)
    requires
        texts.len() == ns.len(),
        forall|i: int| 0 <= i < ns.len() ==> #[trigger] texts[i] == decimal(ns[i] as nat),
    ensures
        numbers(texts) == ns.map_values(|n: u64| n as nat),
    decreases texts.len(),
{
    let all = ns.map_values(|n: u64| n as nat);
    if texts.len() > 0 {
        let last = texts.len() - 1;
        lemma_numbers(texts.drop_last(), ns.drop_last());
        assert(texts[last] == decimal(ns[last] as nat));
        decimal_reads_back(ns[last] as nat, u64::MAX as nat);
        assert(all =~= ns.drop_last().map_values(|n: u64| n as nat).push(ns[last] as nat));
    } else {
        assert(all =~= Seq::<nat>::empty());
    }
}

proof fn lemma_sum_is_at_least(ns: Seq<nat>, i: int)
    requires
        0 <= i < ns.len(),
    ensures
        ns[i] <= sum(ns),
    decreases ns.len(),
{
    if i < ns.len() - 1 {
        lemma_sum_is_at_least(ns.drop_last(), i);
    }
}

/// A sum is the same in any split: that of two parts is the sum of both.
pub proof fn sums_add_up(a: Seq<nat>, b: Seq<nat>)
    ensures
        sum(a + b) == sum(a) + sum(b),
        sum(seq![]) == 0,
    decreases b.len(),
{
    if b.len() == 0 {
        assert(a + b =~= a);
    } else {
        assert((a + b).drop_last() =~= a + b.drop_last());
        sums_add_up(a, b.drop_last());
    }
}

/// The name of the system is the first that is given, without the quotes round it.
pub proof fn systems_are_named_without_quotes(name: Seq<char>, rest: Seq<Seq<char>>)
    requires
        name.len() > 0 ==> name[0] != '"' && name.last() != '"',
    ensures
        pretty_name(seq!["PRETTY_NAME=\""@ + name + "\""@] + rest) == Some(name),
        pretty_name(seq!["PRETTY_NAME="@ + name] + rest) == Some(name),
{
    reveal_strlit("PRETTY_NAME=");
    reveal_strlit("PRETTY_NAME=\"");
    reveal_strlit("\"");
    let quoted = "PRETTY_NAME=\""@ + name + "\""@;
    let plain = "PRETTY_NAME="@ + name;
    let inner = seq!['"'] + name + seq!['"'];
    assert(quoted =~= "PRETTY_NAME="@ + inner);
    assert(quoted.skip(12) =~= inner);
    assert(plain.skip(12) =~= name);
    assert("PRETTY_NAME="@.is_prefix_of(quoted));
    assert("PRETTY_NAME="@.is_prefix_of(plain));
    assert((seq![quoted] + rest)[0] == quoted);
    assert((seq![plain] + rest)[0] == plain);
    reveal_with_fuel(strip_start, 3);
    reveal_with_fuel(strip_end, 3);
    assert(inner.skip(1) =~= name + seq!['"']);
    if name.len() > 0 {
        assert((name + seq!['"'])[0] == name[0]);
        assert((name + seq!['"']).drop_last() =~= name);
    } else {
        assert((name + seq!['"']).skip(1) =~= name);
    }
}

/// Both the system and its kernel are named where they are known; without either
/// the answer is that they are not.
pub proof fn systems_are_described_by_what_is_known(os_name: Seq<char>, kernel: Seq<char>)
    ensures
        os_name.len() > 0 && kernel.len() > 0 ==> os_details(os_name, kernel) == os_name + " / "@
            + kernel,
        os_name.len() == 0 && kernel.len() > 0 ==> os_details(os_name, kernel) == kernel,
        os_name.len() > 0 && kernel.len() == 0 ==> os_details(os_name, kernel) == os_name,
        os_name.len() == 0 && kernel.len() == 0 ==> os_details(os_name, kernel) == "Unknown"@,
        trim(os_name).len() > 0 ==> named_or_unknown(os_name) == trim(os_name),
        trim(os_name).len() == 0 ==> named_or_unknown(os_name) == "Unknown"@,
{
}

/// A line without a number has the amount zero.
pub proof fn lines_without_a_number_have_no_amount(rest: Seq<char>)
    ensures
        is_blank(rest) ==> leading_number(rest) == 0,
        words(rest).len() > 0 && number(words(rest)[0], u64::MAX as nat) is None
            ==> leading_number(rest) == 0,
{
    if is_blank(rest) {
        blank_texts_have_no_words(rest);
    }
}

} // verus!
