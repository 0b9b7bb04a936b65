//! Curated Unicode compatibility normalization for Chinese text.
//!
//! An optional pre-processing pass for text from PDF extraction and other
//! glyph-oriented sources. The curated table maps one Unicode scalar value to
//! one Unicode scalar value (radicals, glyph variants and similar forms), so
//! normalization keeps every character in its position. It is not NFC, NFD,
//! NFKC or NFKD.
//!
//! [`UnicodeCompat::normalize`] applies the curated table only.
//! [`UnicodeCompat::normalize_all`] gives the built-in CJK Compatibility
//! Ideograph table precedence for each character and falls back to the
//! curated table; the result of one table is never passed through the other.
//! ASCII characters are never changed, and tables loaded from text refuse
//! ASCII sources.

use rustc_hash::FxHashMap;
use vstd::prelude::*;
use crate::compat_ideographs::{
    dense_lookup, mapped_char, CompatIdeographs, COMPAT_BMP_DATA, COMPAT_SUPP_DATA,
};
use crate::fx::{char_map_get, char_map_insert, char_map_new};
use crate::text::{
    fold_lines, has_extra_column, has_target_column, is_blank_or_comment, is_white_space,
    lemma_fold_lines_error, lemma_fold_single_line, lemma_single_line_text, lemma_two_column_line,
    lemma_fold_lines_preserves, lemma_fold_lines_step, lemma_lines_len, line_error, line_message,
    lines, next_line, push_char, scan_pair_line, single_char, single_char_result, source_column,
    str_to_chars, target_column, PairScan,
};

verus! {

/// The built-in curated mappings, as consecutive `source, target` character pairs.
pub const UNICODE_COMPAT_PAIRS: &'static str = "\
⺟母⻳龟⼀一⼁丨⼂丶⼃丿⼄乙⼅亅⼆二⼇亠⼈人⼉儿⼊入⼋八⼌冂⼍冖\
⼎冫⼏几⼐凵⼑刀⼒力⼓勹⼔匕⼕匚⼖匸⼗十⼘卜⼙卩⼚厂⼛厶⼜又⼝口\
⼞囗⼟土⼠士⼡夂⼢夊⼣夕⼤大⼥女⼦子⼧宀⼨寸⼩小⼪尢⼫尸⼬屮⼭山\
⼮巛⼯工⼰己⼱巾⼲干⼳幺⼴广⼵廴⼶廾⼷弋⼸弓⼹彐⼺彡⼻彳⼼心⼽戈\
⼾戶⼿手⽀支⽁攴⽂文⽃斗⽄斤⽅方⽆无⽇日⽈曰⽉月⽊木⽋欠⽌止⽍歹\
⽎殳⽏毋⽐比⽑毛⽒氏⽓气⽔水⽕火⽖爪⽗父⽘爻⽙爿⽚片⽛牙⽜牛⽝犬\
⽞玄⽟玉⽠瓜⽡瓦⽢甘⽣生⽤用⽥田⽦疋⽧疒⽨癶⽩白⽪皮⽫皿⽬目⽭矛\
⽮矢⽯石⽰示⽱禸⽲禾⽳穴⽴立⽵竹⽶米⽷糸⽸缶⽹网⽺羊⽻羽⽼老⽽而\
⽾耒⽿耳⾀聿⾁肉⾂臣⾃自⾄至⾅臼⾆舌⾇舛⾈舟⾉艮⾊色⾋艸⾌虍⾍虫\
⾎血⾏行⾐衣⾑襾⾒見⾓角⾔言⾕谷⾖豆⾗豕⾘豸⾙貝⾚赤⾛走⾜足⾝身\
⾞車⾟辛⾠辰⾡辵⾢邑⾣酉⾤釆⾥里⾦金⾧長⾨門⾩阜⾪隶⾫隹⾬雨⾭靑\
⾮非⾯面⾰革⾱韋⾲韭⾳音⾴頁⾵風⾶飛⾷食⾸首⾹香⾺馬⾻骨⾼高⾽髟\
⾾鬥⾿鬯⿀鬲⿁鬼⿂魚⿃鳥⿄鹵⿅鹿⿆麥⿇麻⿈黃⿉黍⿊黑⿋黹⿌黽⿍鼎\
⿎鼓⿏鼠⿐鼻⿑齊⿒齒⿓龍⿔龜⿕龠聼聽竒奇羙美䂖石甁瓶噐器";

/// `c` is an ASCII character (`U+0000..=U+007F`).
pub open spec fn is_ascii_char(c: char) -> bool {
    (c as u32) < 0x80
}

/// What the built-in CJK Compatibility Ideograph table gives for `c`.
pub open spec fn builtin_compat_char(c: char) -> char {
    dense_lookup(COMPAT_BMP_DATA@, COMPAT_SUPP_DATA@, c)
}

/// The mappings of the first `k` pairs of `s`, later pairs winning.
pub open spec fn pairs_map(s: Seq<char>, k: nat) -> Map<char, char>
    decreases k,
{
    if k == 0 {
        Map::empty()
    } else {
        let i = 2 * (k - 1);
        pairs_map(s, (k - 1) as nat).insert(s[i], s[i + 1])
    }
}

/// The message for the first bad line of a curated table, or the table read so far extended by one line.
pub open spec fn unicode_line_step(m: Map<char, char>, line: Seq<char>, line_no: nat) -> Result<
    Map<char, char>,
    Seq<char>,
> {
    if is_blank_or_comment(line) {
        Ok(m)
    } else if !has_target_column(line) {
        Err(line_message(line_no, "missing target"@))
    } else if has_extra_column(line) {
        Err(line_message(line_no, "too many columns"@))
    } else {
        match single_char_result(
            source_column(line),
            line_no,
            "source"@,
            " must be exactly one Unicode scalar value"@,
        ) {
            Err(e) => Err(e),
            Ok(src) => if is_ascii_char(src) {
                Err(line_message(line_no, "source must not be an ASCII character"@))
            } else {
                match single_char_result(
                    target_column(line),
                    line_no,
                    "target"@,
                    " must be exactly one Unicode scalar value"@,
                ) {
                    Err(e) => Err(e),
                    Ok(dst) => Ok(m.insert(src, dst)),
                }
            },
        }
    }
}

/// The line step of [`unicode_table_spec`].
pub open spec fn unicode_step() -> spec_fn(Map<char, char>, Seq<char>, nat) -> Result<
    Map<char, char>,
    Seq<char>,
> {
    |m: Map<char, char>, line: Seq<char>, n: nat| unicode_line_step(m, line, n)
}

/// The mappings that a curated table text defines, in line order with later
/// lines winning, or the message for its first bad line.
pub open spec fn unicode_table_spec(text: Seq<char>) -> Result<Map<char, char>, Seq<char>> {
    fold_lines(lines(text), Map::empty(), unicode_step())
}

/// A mapping line `src<TAB>dst` of two single scalar values (neither one
/// whitespace, `src` not `#`) is refused only for an ASCII source; with any
/// other source it records `src -> dst` over what was read before, whatever
/// the target is, ASCII targets included.
pub proof fn law_mapping_line_refuses_only_ascii_sources(
    m: Map<char, char>,
    src: char,
    dst: char,
    line_no: nat,
)
    requires
        !is_white_space(src),
        !is_white_space(dst),
        src != '#',
    ensures
        (src as u32) >= 0x80 ==> unicode_line_step(m, seq![src, '\t', dst], line_no) == Ok::<
            Map<char, char>,
            Seq<char>,
        >(m.insert(src, dst)),
        (src as u32) < 0x80 ==> unicode_line_step(m, seq![src, '\t', dst], line_no) == Err::<
            Map<char, char>,
            Seq<char>,
        >(line_message(line_no, "source must not be an ASCII character"@)),
{
    lemma_two_column_line(src, dst);
}

/// The curated table text of one mapping line `src<TAB>dst` and a line
/// break loads exactly when `src` is not ASCII, and the loaded table then
/// holds the single mapping `src -> dst`.
pub proof fn law_one_line_curated_table(src: char, dst: char)
    requires
        !is_white_space(src),
        !is_white_space(dst),
        src != '#',
    ensures
        unicode_table_spec(seq![src, '\t', dst, '\n']) is Ok <==> (src as u32) >= 0x80,
        (src as u32) >= 0x80 ==> unicode_table_spec(seq![src, '\t', dst, '\n']) == Ok::<
            Map<char, char>,
            Seq<char>,
        >(Map::empty().insert(src, dst)),
{
    let line = seq![src, '\t', dst];
    assert(is_white_space('\n') && is_white_space('\r') && is_white_space('\t'));
    assert(line.push('\n') =~= seq![src, '\t', dst, '\n']);
    assert(line.last() == dst);
    lemma_single_line_text(line);
    lemma_fold_single_line(line, Map::<char, char>::empty(), unicode_step());
    law_mapping_line_refuses_only_ascii_sources(Map::empty(), src, dst, 1);
}

/// No pair after the `i`-th of the first `k` pairs of `s` has the same source.
pub open spec fn is_last_with_source(s: Seq<char>, k: nat, i: int) -> bool {
    forall|l: int| i < l < k ==> #[trigger] s[2 * l] != s[2 * i]
}

/// Reading `k` pairs keeps every pair that was read: each source among the
/// first `k` pairs is mapped, the last pair with a given source decides its
/// target, and nothing but those sources is mapped.
pub proof fn law_pairs_map_keeps_every_pair(s: Seq<char>, k: nat)
    requires
        2 * k <= s.len(),
    ensures
        forall|j: int| 0 <= j < k ==> #[trigger] pairs_map(s, k).contains_key(s[2 * j]),
        forall|i: int|
            0 <= i < k && is_last_with_source(s, k, i) ==> #[trigger] pairs_map(s, k)[s[2 * i]]
                == s[2 * i + 1],
        forall|c: char|
            #[trigger] pairs_map(s, k).contains_key(c) ==> exists|j: int|
                0 <= j < k && #[trigger] s[2 * j] == c,
    decreases k,
{
    if k > 0 {
        let k1 = (k - 1) as nat;
        law_pairs_map_keeps_every_pair(s, k1);
        let last: int = 2 * (k1 as int);
        assert(pairs_map(s, k) == pairs_map(s, k1).insert(s[last], s[last + 1]));
        assert forall|j: int| 0 <= j < k implies #[trigger] pairs_map(s, k).contains_key(s[2 * j]) by {
            if j < k1 {
                assert(pairs_map(s, k1).contains_key(s[2 * j]));
            }
        }
        assert forall|i: int|
            0 <= i < k && is_last_with_source(s, k, i) implies #[trigger] pairs_map(s, k)[s[2 * i]]
                == s[2 * i + 1] by {
            if i < k1 {
                assert(s[2 * (k1 as int)] != s[2 * i]);
                assert(is_last_with_source(s, k1, i));
                assert(pairs_map(s, k1)[s[2 * i]] == s[2 * i + 1]);
            }
        }
        assert forall|c: char|
            #[trigger] pairs_map(s, k).contains_key(c) implies exists|j: int|
                0 <= j < k && #[trigger] s[2 * j] == c by {
            if c == s[last] {
                assert(s[2 * (k1 as int)] == c);
            } else {
                assert(pairs_map(s, k1).contains_key(c));
            }
        }
    }
}

/// The sources of the pairs `l..k` of `s` rise strictly by scalar value.
pub open spec fn sources_rise_from(s: Seq<char>, l: nat, k: nat) -> bool
    decreases k - l,
{
    if l + 1 >= k {
        true
    } else {
        (s[2 * (l as int)] as u32) < (s[2 * (l as int) + 2] as u32) && sources_rise_from(s, l + 1, k)
    }
}

proof fn lemma_sources_rise(s: Seq<char>, l: nat, k: nat)
    requires
        sources_rise_from(s, l, k),
        2 * k <= s.len(),
    ensures
        forall|a: int, b: int|
            l <= a < b < k ==> (#[trigger] s[2 * a] as u32) < (#[trigger] s[2 * b] as u32),
    decreases k - l,
{
    if l + 1 < k {
        lemma_sources_rise(s, l + 1, k);
        assert forall|a: int, b: int|
            l <= a < b < k implies (#[trigger] s[2 * a] as u32) < (#[trigger] s[2 * b] as u32) by {
            if a == l && b > l + 1 {
                assert((s[2 * (l as int) + 2] as u32) < (s[2 * b] as u32));
            }
        }
    }
}

/// What the built-in curated data literal holds: its length, its first
/// pair, the rise of its radical sources, and the glyph-variant sources
/// that close it, which lie above the radicals and differ from one another.
#[verifier::rlimit(100)]
proof fn lemma_builtin_data_facts()
    ensures
        UNICODE_COMPAT_PAIRS@.len() == 444,
        UNICODE_COMPAT_PAIRS@[0] == '\u{2E9F}',
        UNICODE_COMPAT_PAIRS@[1] == '\u{6BCD}',
        sources_rise_from(UNICODE_COMPAT_PAIRS@, 0, 216),
        (UNICODE_COMPAT_PAIRS@[430] as u32) == 0x2FD5,
        forall|b: int| 216 <= b < 222 ==> (#[trigger] UNICODE_COMPAT_PAIRS@[2 * b] as u32) > 0x2FD5,
        forall|a: int, b: int|
            216 <= a < b < 222 ==> #[trigger] UNICODE_COMPAT_PAIRS@[2 * a]
                != #[trigger] UNICODE_COMPAT_PAIRS@[2 * b],
{
    reveal_strlit("\
⺟母⻳龟⼀一⼁丨⼂丶⼃丿⼄乙⼅亅⼆二⼇亠⼈人⼉儿⼊入⼋八⼌冂⼍冖\
⼎冫⼏几⼐凵⼑刀⼒力⼓勹⼔匕⼕匚⼖匸⼗十⼘卜⼙卩⼚厂⼛厶⼜又⼝口\
⼞囗⼟土⼠士⼡夂⼢夊⼣夕⼤大⼥女⼦子⼧宀⼨寸⼩小⼪尢⼫尸⼬屮⼭山\
⼮巛⼯工⼰己⼱巾⼲干⼳幺⼴广⼵廴⼶廾⼷弋⼸弓⼹彐⼺彡⼻彳⼼心⼽戈\
⼾戶⼿手⽀支⽁攴⽂文⽃斗⽄斤⽅方⽆无⽇日⽈曰⽉月⽊木⽋欠⽌止⽍歹\
⽎殳⽏毋⽐比⽑毛⽒氏⽓气⽔水⽕火⽖爪⽗父⽘爻⽙爿⽚片⽛牙⽜牛⽝犬\
⽞玄⽟玉⽠瓜⽡瓦⽢甘⽣生⽤用⽥田⽦疋⽧疒⽨癶⽩白⽪皮⽫皿⽬目⽭矛\
⽮矢⽯石⽰示⽱禸⽲禾⽳穴⽴立⽵竹⽶米⽷糸⽸缶⽹网⽺羊⽻羽⽼老⽽而\
⽾耒⽿耳⾀聿⾁肉⾂臣⾃自⾄至⾅臼⾆舌⾇舛⾈舟⾉艮⾊色⾋艸⾌虍⾍虫\
⾎血⾏行⾐衣⾑襾⾒見⾓角⾔言⾕谷⾖豆⾗豕⾘豸⾙貝⾚赤⾛走⾜足⾝身\
⾞車⾟辛⾠辰⾡辵⾢邑⾣酉⾤釆⾥里⾦金⾧長⾨門⾩阜⾪隶⾫隹⾬雨⾭靑\
⾮非⾯面⾰革⾱韋⾲韭⾳音⾴頁⾵風⾶飛⾷食⾸首⾹香⾺馬⾻骨⾼高⾽髟\
⾾鬥⾿鬯⿀鬲⿁鬼⿂魚⿃鳥⿄鹵⿅鹿⿆麥⿇麻⿈黃⿉黍⿊黑⿋黹⿌黽⿍鼎\
⿎鼓⿏鼠⿐鼻⿑齊⿒齒⿓龍⿔龜⿕龠聼聽竒奇羙美䂖石甁瓶噐器");
    let s = UNICODE_COMPAT_PAIRS@;
    assert(s.len() == 444);
    reveal_with_fuel(sources_rise_from, 40);
    assert(sources_rise_from(s, 180, 216));
    assert(sources_rise_from(s, 144, 216));
    assert(sources_rise_from(s, 108, 216));
    assert(sources_rise_from(s, 72, 216));
    assert(sources_rise_from(s, 36, 216));
    assert(sources_rise_from(s, 0, 216));
    assert((s[430] as u32) == 0x2FD5);
    assert(forall|b: int| 216 <= b < 222 ==> (#[trigger] s[2 * b] as u32) > 0x2FD5);
    assert(s[432] != s[434] && s[432] != s[436] && s[432] != s[438]
        && s[432] != s[440] && s[432] != s[442]);
    assert(s[434] != s[436] && s[434] != s[438] && s[434] != s[440]
        && s[434] != s[442]);
    assert(s[436] != s[438] && s[436] != s[440] && s[436] != s[442]);
    assert(s[438] != s[440] && s[438] != s[442]);
    assert(s[440] != s[442]);
    assert forall|a: int, b: int|
        216 <= a < b < 222 implies #[trigger] s[2 * a] != #[trigger] s[2 * b] by {
    }
}

/// The sources of the built-in curated data are pairwise distinct.
proof fn lemma_builtin_sources_distinct()
    ensures
        UNICODE_COMPAT_PAIRS@.len() == 444,
        forall|a: int, b: int|
            0 <= a < b < 222 ==> #[trigger] UNICODE_COMPAT_PAIRS@[2 * a]
                != #[trigger] UNICODE_COMPAT_PAIRS@[2 * b],
        UNICODE_COMPAT_PAIRS@[0] == '\u{2E9F}',
        UNICODE_COMPAT_PAIRS@[1] == '\u{6BCD}',
{
    lemma_builtin_data_facts();
    let s = UNICODE_COMPAT_PAIRS@;
    lemma_sources_rise(s, 0, 216);
    assert forall|a: int, b: int|
        0 <= a < b < 222 implies #[trigger] s[2 * a] != #[trigger] s[2 * b] by {
        if b < 216 {
        } else if a < 216 {
            let top: int = 215;
            if a < top {
                assert((s[2 * a] as u32) < (s[2 * top] as u32));
            }
        } else {
        }
    }
}

/// The built-in curated table maps the source of each of its pairs to that
/// pair's target; the first pair sends the radical `U+2E9F` to `U+6BCD`.
pub proof fn law_builtin_curated_table_keeps_every_pair()
    ensures
        forall|j: int|
            0 <= j < UNICODE_COMPAT_PAIRS@.len() / 2 ==> #[trigger] pairs_map(
                UNICODE_COMPAT_PAIRS@,
                UNICODE_COMPAT_PAIRS@.len() / 2,
            ).contains_key(UNICODE_COMPAT_PAIRS@[2 * j]),
        forall|j: int|
            0 <= j < UNICODE_COMPAT_PAIRS@.len() / 2 ==> #[trigger] pairs_map(
                UNICODE_COMPAT_PAIRS@,
                UNICODE_COMPAT_PAIRS@.len() / 2,
            )[UNICODE_COMPAT_PAIRS@[2 * j]] == UNICODE_COMPAT_PAIRS@[2 * j + 1],
        pairs_map(UNICODE_COMPAT_PAIRS@, UNICODE_COMPAT_PAIRS@.len() / 2)['\u{2E9F}'] == '\u{6BCD}',
{
    let s = UNICODE_COMPAT_PAIRS@;
    lemma_builtin_sources_distinct();
    let n: nat = 222;
    assert(s.len() / 2 == 222);
    law_pairs_map_keeps_every_pair(s, n);
    assert forall|j: int| 0 <= j < n implies is_last_with_source(s, n, j) by {
        assert forall|l: int| j < l < n implies #[trigger] s[2 * l] != s[2 * j] by {
            assert(s[2 * j] != s[2 * l]);
        }
    }
    let j0: int = 0;
    assert(pairs_map(s, n)[s[2 * j0]] == s[2 * j0 + 1]);
}

/// The curated-table normalization of one character.
pub open spec fn extended_char(m: Map<char, char>, c: char) -> char {
    if is_ascii_char(c) {
        c
    } else {
        mapped_char(m, c)
    }
}

/// The combined normalization of one character: the compatibility ideograph
/// table first, the curated table only where the first leaves `c` unchanged.
pub open spec fn combined_char(m: Map<char, char>, c: char) -> char {
    if is_ascii_char(c) {
        c
    } else if builtin_compat_char(c) != c {
        builtin_compat_char(c)
    } else {
        mapped_char(m, c)
    }
}

/// A curated table loaded from text has no ASCII source.
pub proof fn law_loaded_tables_have_no_ascii_sources(text: Seq<char>)
    ensures
        unicode_table_spec(text) matches Ok(m) ==> forall|c: char|
            #[trigger] m.contains_key(c) ==> !is_ascii_char(c),
{
    let inv = |m: Map<char, char>| forall|c: char| #[trigger] m.contains_key(c) ==> !is_ascii_char(c);
    assert forall|m: Map<char, char>, line: Seq<char>, n: nat|
        inv(m) && (#[trigger] unicode_step()(m, line, n)) is Ok implies inv(
            unicode_step()(m, line, n)->Ok_0,
        ) by {}
    lemma_fold_lines_preserves(lines(text), Map::empty(), unicode_step(), inv);
}

/// ASCII characters are never changed, by either normalization.
pub proof fn law_ascii_is_never_changed(m: Map<char, char>, c: char)
    requires
        is_ascii_char(c),
    ensures
        extended_char(m, c) == c,
        combined_char(m, c) == c,
{
}

/// In combined normalization the compatibility ideograph table takes
/// precedence, and its result is not passed through the curated table: the
/// curated table only decides characters that the first table leaves alone.
pub proof fn law_compat_table_takes_precedence(m: Map<char, char>, c: char)
    ensures
        builtin_compat_char(c) != c ==> combined_char(m, c) == builtin_compat_char(c),
        builtin_compat_char(c) == c ==> combined_char(m, c) == extended_char(m, c),
{
    if is_ascii_char(c) {
        assert(builtin_compat_char(c) == c);
    }
}

/// Curated Unicode compatibility normalizer, combined with the built-in CJK
/// Compatibility Ideograph table.
#[derive(Debug, Clone)]
pub struct UnicodeCompat {
    compat: CompatIdeographs,
    extended: FxHashMap<char, char>,
}

impl UnicodeCompat {
    /// The compatibility ideograph part is the built-in table.
    pub closed spec fn wf(self) -> bool {
        &&& self.compat.wf()
        &&& forall|c: char| #[trigger] self.compat.lookup(c) == builtin_compat_char(c)
    }

    /// The curated mappings.
    pub closed spec fn extended_map(self) -> Map<char, char> {
        self.extended@
    }

    /// The normalizer with the built-in curated table.
    pub fn builtin() -> (t: Self)
        ensures
            t.wf(),
            t.extended_map() == pairs_map(UNICODE_COMPAT_PAIRS@, UNICODE_COMPAT_PAIRS@.len() / 2),
    {
        let data = str_to_chars(UNICODE_COMPAT_PAIRS);
        let mut extended = char_map_new();
        let mut k: usize = 0;
        let len = data.len();
        let n = len / 2;
        assert(2 * n <= data@.len()) by (nonlinear_arith)
            requires
                n == data@.len() / 2,
        ;
        while k < n
            invariant
                len == data@.len(),
                n == data@.len() / 2,
                2 * n <= data@.len(),
                data@ == UNICODE_COMPAT_PAIRS@,
                k <= n,
                extended@ == pairs_map(data@, k as nat),
            decreases n - k,
        {
            assert(2 * k + 1 < data@.len());
            char_map_insert(&mut extended, data[2 * k], data[2 * k + 1]);
            k += 1;
        }
        UnicodeCompat { compat: CompatIdeographs::builtin(), extended }
    }

    /// Builds a normalizer from curated mapping text: one
    /// `source<TAB>target` pair per line, blank lines and `#` comments
    /// ignored, later lines winning. Each column is trimmed and must hold
    /// exactly one Unicode scalar value, and the source must not be ASCII;
    /// otherwise the result is the message for the first bad line.
    pub fn from_text(text: &str) -> (r: Result<Self, String>)
        ensures
            match (r, unicode_table_spec(text@)) {
                (Ok(t), Ok(m)) => t.wf() && t.extended_map() == m,
                (Err(e), Err(msg)) => e@ == msg,
                _ => false,
            },
    {
        let v = str_to_chars(text);
        let mut extended = char_map_new();
        let ghost all = lines(v@);
        let mut pos: usize = 0;
        let mut line_no: usize = 0;
        proof {
            lemma_lines_len(v@);
            assert(v@.skip(0) == v@);
            assert(all.take(0) == Seq::<Seq<char>>::empty());
        }
        while pos < v.len()
            invariant
                pos <= v.len(),
                all == lines(v@),
                v@ == text@,
                all.len() <= v.len(),
                line_no <= all.len(),
                lines(v@.skip(pos as int)) == all.skip(line_no as int),
                fold_lines(all.take(line_no as int), Map::empty(), unicode_step()) == Ok::<
                    Map<char, char>,
                    Seq<char>,
                >(extended@),
            decreases v.len() - pos,
        {
            let (e, next) = next_line(&v, pos);
            let ghost line = v@.subrange(pos as int, e as int);
            proof {
                assert(all.skip(line_no as int)[0] == line);
                assert(all.skip(line_no as int).skip(1) == all.skip(line_no + 1));
                assert((seq![line] + lines(v@.skip(next as int))).skip(1) == lines(
                    v@.skip(next as int),
                ));
                lemma_fold_lines_step(all, line_no as int, Map::empty(), unicode_step());
            }
            line_no += 1;
            let r = Self::load_line(&mut extended, &v, pos, e, line_no);
            if let Err(err) = r {
                proof {
                    lemma_fold_lines_error(all, line_no as int, Map::empty(), unicode_step(), err@);
                }
                return Err(err);
            }
            pos = next;
        }
        proof {
            assert(v@.skip(pos as int) == Seq::<char>::empty());
            assert(all.take(line_no as int) == all);
        }
        Ok(UnicodeCompat { compat: CompatIdeographs::builtin(), extended })
    }

    /// Reads the line `v[lo..hi]` into the curated mappings.
    fn load_line(
        extended: &mut FxHashMap<char, char>,
        v: &Vec<char>,
        lo: usize,
        hi: usize,
        line_no: usize,
    ) -> (r: Result<(), String>)
        requires
            lo <= hi <= v.len(),
        ensures
            match (r, unicode_line_step(old(extended)@, v@.subrange(lo as int, hi as int), line_no as nat)) {
                (Ok(_), Ok(m2)) => final(extended)@ == m2,
                (Err(e), Err(msg)) => e@ == msg,
                _ => false,
            },
    {
        match scan_pair_line(v, lo, hi) {
            PairScan::Skip => Ok(()),
            PairScan::MissingTarget => Err(line_error(line_no, "missing target")),
            PairScan::TooManyColumns => Err(line_error(line_no, "too many columns")),
            PairScan::Fields { src_lo, src_hi, dst_lo, dst_hi } => {
                let src = match single_char(
                    v,
                    src_lo,
                    src_hi,
                    line_no,
                    "source",
                    " must be exactly one Unicode scalar value",
                ) {
                    Ok(c) => c,
                    Err(e) => return Err(e),
                };
                if (src as u32) < 0x80 {
                    return Err(line_error(line_no, "source must not be an ASCII character"));
                }
                let dst = match single_char(
                    v,
                    dst_lo,
                    dst_hi,
                    line_no,
                    "target",
                    " must be exactly one Unicode scalar value",
                ) {
                    Ok(c) => c,
                    Err(e) => return Err(e),
                };
                char_map_insert(extended, src, dst);
                Ok(())
            },
        }
    }

    /// Normalizes one character with the curated table only; ASCII and
    /// unmapped characters are returned unchanged.
    pub fn normalize_char(&self, ch: char) -> (r: char)
        ensures
            r == extended_char(self.extended_map(), ch),
    {
        if (ch as u32) < 0x80 {
            return ch;
        }
        match char_map_get(&self.extended, ch) {
            Some(c) => c,
            None => ch,
        }
    }

    /// Normalizes one character with the compatibility ideograph table
    /// first; only when that leaves the character unchanged is the curated
    /// table consulted.
    pub fn normalize_all_char(&self, ch: char) -> (r: char)
        requires
            self.wf(),
        ensures
            r == combined_char(self.extended_map(), ch),
    {
        if (ch as u32) < 0x80 {
            return ch;
        }
        let compat = self.compat.normalize_char(ch);
        if compat != ch {
            return compat;
        }
        match char_map_get(&self.extended, ch) {
            Some(c) => c,
            None => ch,
        }
    }

    /// Normalizes text with the curated table only.
    pub fn normalize(&self, input: &str) -> (r: String)
        requires
            self.wf(),
        ensures
            r@ == input@.map_values(|c: char| extended_char(self.extended_map(), c)),
    {
        self.normalize_impl(input, false)
    }

    /// Normalizes text with the compatibility ideograph table first and the
    /// curated table as fallback, character by character.
    pub fn normalize_all(&self, input: &str) -> (r: String)
        requires
            self.wf(),
        ensures
            r@ == input@.map_values(|c: char| combined_char(self.extended_map(), c)),
    {
        self.normalize_impl(input, true)
    }

    fn normalize_impl(&self, input: &str, include_compat: bool) -> (r: String)
        requires
            self.wf(),
        ensures
            r@ == input@.map_values(
                |c: char|
                    if include_compat {
                        combined_char(self.extended_map(), c)
                    } else {
                        extended_char(self.extended_map(), c)
                    },
            ),
    {
        let mut output = String::new();
        for ch in it: input.chars()
            invariant
                self.wf(),
                output@ == it.seq().take(it.index() as int).map_values(
                    |c: char|
                        if include_compat {
                            combined_char(self.extended_map(), c)
                        } else {
                            extended_char(self.extended_map(), c)
                        },
                ),
        {
            let n = if include_compat {
                self.normalize_all_char(ch)
            } else {
                self.normalize_char(ch)
            };
            push_char(&mut output, n);
            assert(it.seq().take(it.index() + 1) == it.seq().take(it.index() as int).push(ch));
        }
        output
    }

    /// Normalizes a character vector in place with the curated table only.
    pub fn normalize_in_place(&self, chars: &mut Vec<char>)
        ensures
            final(chars)@ == old(chars)@.map_values(|c: char| extended_char(self.extended_map(), c)),
    {
        let mut i: usize = 0;
        while i < chars.len()
            invariant
                i <= chars@.len() == old(chars)@.len(),
                forall|j: int| 0 <= j < i ==> #[trigger] chars@[j] == extended_char(self.extended_map(), old(chars)@[j]),
                forall|j: int| i <= j < chars@.len() ==> #[trigger] chars@[j] == old(chars)@[j],
            decreases chars.len() - i,
        {
            let c = self.normalize_char(chars[i]);
            chars.set(i, c);
            i += 1;
        }
        assert(chars@ == old(chars)@.map_values(|c: char| extended_char(self.extended_map(), c)));
    }

    /// Normalizes a character vector in place with both tables.
    pub fn normalize_all_in_place(&self, chars: &mut Vec<char>)
        requires
            self.wf(),
        ensures
            final(chars)@ == old(chars)@.map_values(|c: char| combined_char(self.extended_map(), c)),
    {
        let mut i: usize = 0;
        while i < chars.len()
            invariant
                self.wf(),
                i <= chars@.len() == old(chars)@.len(),
                forall|j: int| 0 <= j < i ==> #[trigger] chars@[j] == combined_char(self.extended_map(), old(chars)@[j]),
                forall|j: int| i <= j < chars@.len() ==> #[trigger] chars@[j] == old(chars)@[j],
            decreases chars.len() - i,
        {
            let c = self.normalize_all_char(chars[i]);
            chars.set(i, c);
            i += 1;
        }
        assert(chars@ == old(chars)@.map_values(|c: char| combined_char(self.extended_map(), c)));
    }
}

/// Normalizes text with the built-in curated table only.
pub fn normalize_unicode_compat(input: &str) -> (r: String)
    ensures
        r@ == input@.map_values(
            |c: char|
                extended_char(pairs_map(UNICODE_COMPAT_PAIRS@, UNICODE_COMPAT_PAIRS@.len() / 2), c),
        ),
{
    UnicodeCompat::builtin().normalize(input)
}

/// Normalizes text with the built-in compatibility ideograph table first and
/// the built-in curated table as fallback.
pub fn normalize_unicode_compat_all(input: &str) -> (r: String)
    ensures
        r@ == input@.map_values(
            |c: char|
                combined_char(pairs_map(UNICODE_COMPAT_PAIRS@, UNICODE_COMPAT_PAIRS@.len() / 2), c),
        ),
{
    UnicodeCompat::builtin().normalize_all(input)
}

} // verus!
