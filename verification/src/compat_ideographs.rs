//! CJK Compatibility Ideograph normalization.
//!
//! Unicode CJK Compatibility Ideographs (`U+F900..=U+FAFF` and
//! `U+2F800..=U+2FA1F`) are mapped to their UnicodeData decomposition targets.
//! This is an optional compatibility pre-pass, not an OpenCC dictionary
//! conversion. Each range is stored densely; a slot without a mapping holds
//! its own character, so unmapped compatibility ideographs and every
//! character outside the two ranges are left unchanged.

use vstd::prelude::*;
use crate::text::{
    char_from_u32, fold_lines, has_extra_column, is_white_space, lemma_fold_single_line,
    lemma_single_line_text, lemma_two_column_line, has_target_column, hex4, is_blank_or_comment,
    lemma_fold_lines_error, lemma_fold_lines_preserves, lemma_fold_lines_step, lemma_lines_len,
    line_error, line_message, lines, next_line, push_char, push_hex4, scan_pair_line,
    single_char, single_char_result, source_column, str_to_chars, target_column, PairScan,
};

verus! {


/// First code point of the BMP compatibility ideograph range.
pub const BMP_START: u32 = 0xF900;
/// Last code point of the BMP compatibility ideograph range.
pub const BMP_END: u32 = 0xFAFF;
/// Number of code points in the BMP range.
pub const BMP_LEN: usize = 512;
/// First code point of the supplementary compatibility ideograph range.
pub const SUPP_START: u32 = 0x2F800;
/// Last code point of the supplementary compatibility ideograph range.
pub const SUPP_END: u32 = 0x2FA1F;
/// Number of code points in the supplementary range.
pub const SUPP_LEN: usize = 544;

/// Targets of `U+F900..=U+FAFF`, one character per code point in order; a
/// code point without a UnicodeData decomposition holds itself.
pub const COMPAT_BMP_DATA: &'static str = "\
豈更車賈滑串句龜龜契金喇奈懶癩羅蘿螺裸邏樂洛烙珞落酪駱亂卵欄爛蘭\
鸞嵐濫藍襤拉臘蠟廊朗浪狼郎來冷勞擄櫓爐盧老蘆虜路露魯鷺碌祿綠菉錄\
鹿論壟弄籠聾牢磊賂雷壘屢樓淚漏累縷陋勒肋凜凌稜綾菱陵讀拏樂諾丹寧\
怒率異北磻便復不泌數索參塞省葉說殺辰沈拾若掠略亮兩凉梁糧良諒量勵\
呂女廬旅濾礪閭驪麗黎力曆歷轢年憐戀撚漣煉璉秊練聯輦蓮連鍊列劣咽烈\
裂說廉念捻殮簾獵令囹寧嶺怜玲瑩羚聆鈴零靈領例禮醴隸惡了僚寮尿料樂\
燎療蓼遼龍暈阮劉杻柳流溜琉留硫紐類六戮陸倫崙淪輪律慄栗率隆利吏履\
易李梨泥理痢罹裏裡里離匿溺吝燐璘藺隣鱗麟林淋臨立笠粒狀炙識什茶刺\
切度拓糖宅洞暴輻行降見廓兀嗀\u{FA0E}\u{FA0F}塚\u{FA11}晴\u{FA13}\u{FA14}凞猪益礼神祥福靖精羽\u{FA1F}\
蘒\u{FA21}諸\u{FA23}\u{FA24}逸都\u{FA27}\u{FA28}\u{FA29}飯飼館鶴郞隷侮僧免勉勤卑喝嘆器塀墨層屮悔慨憎\
懲敏既暑梅海渚漢煮爫琢碑社祉祈祐祖祝禍禎穀突節練縉繁署者臭艹艹著\
褐視謁謹賓贈辶逸難響頻恵𤋮舘\u{FA6E}\u{FA6F}並况全侀充冀勇勺喝啕喙嗢塚墳奄奔\
婢嬨廒廙彩徭惘慎愈憎慠懲戴揄搜摒敖晴朗望杖歹殺流滛滋漢瀞煮瞧爵犯\
猪瑱甆画瘝瘟益盛直睊着磌窱節类絛練缾者荒華蝹襁覆視調諸請謁諾諭謹\
變贈輸遲醙鉶陼難靖韛響頋頻鬒龜𢡊𢡄𣏕㮝䀘䀹𥉉𥳐𧻓齃龎\u{FADA}\u{FADB}\u{FADC}\u{FADD}\u{FADE}\u{FADF}\
\u{FAE0}\u{FAE1}\u{FAE2}\u{FAE3}\u{FAE4}\u{FAE5}\u{FAE6}\u{FAE7}\u{FAE8}\u{FAE9}\u{FAEA}\u{FAEB}\u{FAEC}\u{FAED}\u{FAEE}\u{FAEF}\u{FAF0}\u{FAF1}\u{FAF2}\u{FAF3}\u{FAF4}\u{FAF5}\u{FAF6}\u{FAF7}\u{FAF8}\u{FAF9}\u{FAFA}\u{FAFB}\u{FAFC}\u{FAFD}\u{FAFE}\u{FAFF}";

/// Targets of `U+2F800..=U+2FA1F`, one character per code point in order; a
/// code point without a UnicodeData decomposition holds itself.
pub const COMPAT_SUPP_DATA: &'static str = "\
丽丸乁𠄢你侮侻倂偺備僧像㒞𠘺免兔兤具𠔜㒹內再𠕋冗冤仌冬况𩇟凵刃㓟\
刻剆割剷㔕勇勉勤勺包匆北卉卑博即卽卿卿卿𠨬灰及叟𠭣叫叱吆咞吸呈周\
咢哶唐啓啣善善喙喫喳嗂圖嘆圗噑噴切壮城埴堍型堲報墬𡓤売壷夆多夢奢\
𡚨𡛪姬娛娧姘婦㛮㛼嬈嬾嬾𡧈寃寘寧寳𡬘寿将当尢㞁屠屮峀岍𡷤嵃𡷦嵮嵫\
嵼巡巢㠯巽帨帽幩㡢𢆃㡼庰庳庶廊𪎒廾𢌱𢌱舁弢弢㣇𣊸𦇚形彫㣣徚忍志忹\
悁㤺㤜悔𢛔惇慈慌慎慌慺憎憲憤憯懞懲懶成戛扝抱拔捐𢬌挽拼捨掃揤𢯱搢\
揅掩㨮摩摾撝摷㩬敏敬𣀊旣書晉㬙暑㬈㫤冒冕最暜肭䏙朗望朡杞杓𣏃㭉柺\
枅桒梅𣑭梎栟椔㮝楂榣槪檨𣚣櫛㰘次𣢧歔㱎歲殟殺殻𣪍𡴋𣫺汎𣲼沿泍汧洖\
派海流浩浸涅𣴞洴港湮㴳滋滇𣻑淹潮𣽞𣾎濆瀹瀞瀛㶖灊災灷炭𠔥煅𤉣熜𤎫\
爨爵牐𤘈犀犕𤜵𤠔獺王㺬玥㺸㺸瑇瑜瑱璅瓊㼛甤𤰶甾𤲒異𢆟瘐𤾡𤾸𥁄㿼䀈\
直𥃳𥃲𥄙𥄳眞真真睊䀹瞋䁆䂖𥐝硎碌磌䃣𥘦祖𥚚𥛅福秫䄯穀穊穏𥥼𥪧𥪧竮\
䈂𥮫篆築䈧𥲀糒䊠糨糣紀𥾆絣䌁緇縂繅䌴𦈨𦉇䍙𦋙罺𦌾羕翺者𦓚𦔣聠𦖨聰\
𣍟䏕育脃䐋脾媵𦞧𦞵𣎓𣎜舁舄辞䑫芑芋芝劳花芳芽苦𦬼若茝荣莭茣莽菧著\
荓菊菌菜𦰶𦵫𦳕䔫蓱蓳蔖𧏊蕤𦼬䕝䕡𦾱𧃒䕫虐虜虧虩蚩蚈蜎蛢蝹蜨蝫螆䗗\
蟡蠁䗹衠衣𧙧裗裞䘵裺㒻𧢮𧥦䚾䛇誠諭變豕𧲨貫賁贛起𧼯𠠄跋趼跰𠣞軔輸\
𨗒𨗭邔郱鄑𨜮鄛鈸鋗鋘鉼鏹鐕𨯺開䦕閷𨵷䧦雃嶲霣𩅅𩈚䩮䩶韠𩐊䪲𩒖頋頋\
頩𩖶飢䬳餩馧駂駾䯎𩬰鬒鱀鳽䳎䳭鵧𪃎䳸𪄅𪈎𪊑麻䵖黹黾鼅鼏鼖鼻𪘀\u{2FA1E}\u{2FA1F}";

/// `c` lies in `U+F900..=U+FAFF`.
pub open spec fn in_bmp_range(c: char) -> bool {
    BMP_START <= c as u32 <= BMP_END
}

/// `c` lies in `U+2F800..=U+2FA1F`.
pub open spec fn in_supp_range(c: char) -> bool {
    SUPP_START <= c as u32 <= SUPP_END
}

/// `c` lies in one of the two CJK Compatibility Ideograph ranges.
pub open spec fn in_compat_ranges(c: char) -> bool {
    in_bmp_range(c) || in_supp_range(c)
}

/// What a table built from the mappings `m` gives for `c`.
pub open spec fn mapped_char(m: Map<char, char>, c: char) -> char {
    if m.contains_key(c) {
        m[c]
    } else {
        c
    }
}

/// The dense tables `bmp` and `supp` read as a character mapping: a slot
/// holds the target of its code point; a slot past the end of the data, and
/// every character outside both ranges, maps to itself.
pub open spec fn dense_lookup(bmp: Seq<char>, supp: Seq<char>, c: char) -> char {
    if in_bmp_range(c) {
        let i = (c as u32 - BMP_START) as int;
        if i < bmp.len() {
            bmp[i]
        } else {
            c
        }
    } else if in_supp_range(c) {
        let i = (c as u32 - SUPP_START) as int;
        if i < supp.len() {
            supp[i]
        } else {
            c
        }
    } else {
        c
    }
}

/// The message for a mapping source outside both ranges.
pub open spec fn outside_ranges_message(line_no: nat, src: char) -> Seq<char> {
    line_message(
        line_no,
        "source U+"@ + hex4(src as u32 as nat) + " is outside CJK Compatibility Ideograph ranges"@,
    )
}

/// Reads one line of a compatibility ideograph table into the mappings `m`.
pub open spec fn compat_line_step(m: Map<char, char>, line: Seq<char>, line_no: nat) -> Result<
    Map<char, char>,
    Seq<char>,
> {
    if is_blank_or_comment(line) {
        Ok(m)
    } else if !has_target_column(line) {
        Err(line_message(line_no, "missing target"@))
    } else if has_extra_column(line) {
        Err(line_message(line_no, "too many columns"@))
    } else {
        match single_char_result(
            source_column(line),
            line_no,
            "source"@,
            " must be exactly one character"@,
        ) {
            Err(e) => Err(e),
            Ok(src) => match single_char_result(
                target_column(line),
                line_no,
                "target"@,
                " must be exactly one character"@,
            ) {
                Err(e) => Err(e),
                Ok(dst) => if in_compat_ranges(src) {
                    Ok(m.insert(src, dst))
                } else {
                    Err(outside_ranges_message(line_no, src))
                },
            },
        }
    }
}

/// The mappings that a compatibility ideograph table text defines, in line
/// order with later lines winning, or the message for its first bad line.
pub open spec fn compat_table_spec(text: Seq<char>) -> Result<Map<char, char>, Seq<char>> {
    fold_lines(lines(text), Map::empty(), compat_step())
}

/// The line step of [`compat_table_spec`].
pub open spec fn compat_step() -> spec_fn(Map<char, char>, Seq<char>, nat) -> Result<
    Map<char, char>,
    Seq<char>,
> {
    |m: Map<char, char>, line: Seq<char>, n: nat| compat_line_step(m, line, n)
}

/// Dense lookup tables for CJK Compatibility Ideograph normalization.
#[derive(Debug, Clone)]
pub struct CompatIdeographs {
    bmp: Vec<char>,
    supp: Vec<char>,
}

impl CompatIdeographs {
    /// Both dense tables cover their whole range.
    pub closed spec fn wf(self) -> bool {
        self.bmp@.len() == BMP_LEN && self.supp@.len() == SUPP_LEN
    }

    /// The character that this table gives for `c`.
    pub closed spec fn lookup(self, c: char) -> char {
        dense_lookup(self.bmp@, self.supp@, c)
    }

    /// Records the mapping `src -> dst`; a source outside both compatibility
    /// ideograph ranges is refused with a message naming `line_no`.
    pub fn set(&mut self, src: char, dst: char, line_no: usize) -> (r: Result<(), String>)
        requires
            old(self).wf(),
        ensures
            final(self).wf(),
            r is Ok <==> in_compat_ranges(src),
            r is Ok ==> forall|c: char| #[trigger]
                final(self).lookup(c) == if c == src {
                    dst
                } else {
                    old(self).lookup(c)
                },
            r matches Err(e) ==> e@ == outside_ranges_message(line_no as nat, src)
                && forall|c: char| #[trigger] final(self).lookup(c) == old(self).lookup(c),
    {
        let u = src as u32;
        if BMP_START <= u && u <= BMP_END {
            let i = (u - BMP_START) as usize;
            self.bmp.set(i, dst);
            proof {
                assert forall|c: char| #[trigger] self.lookup(c) == if c == src {
                    dst
                } else {
                    old(self).lookup(c)
                } by {
                    if in_bmp_range(c) && c != src {
                        lemma_char_u32_injective(c, src);
                    }
                }
            }
            return Ok(());
        }
        if SUPP_START <= u && u <= SUPP_END {
            let i = (u - SUPP_START) as usize;
            self.supp.set(i, dst);
            proof {
                assert forall|c: char| #[trigger] self.lookup(c) == if c == src {
                    dst
                } else {
                    old(self).lookup(c)
                } by {
                    if in_supp_range(c) && c != src {
                        lemma_char_u32_injective(c, src);
                    }
                }
            }
            return Ok(());
        }
        let mut msg = String::new();
        msg.append("source U+");
        push_hex4(&mut msg, u);
        msg.append(" is outside CJK Compatibility Ideograph ranges");
        Err(line_error(line_no, msg.as_str()))
    }

    /// The built-in table of UnicodeData decomposition targets.
    pub fn builtin() -> (t: Self)
        ensures
            t.wf(),
            forall|c: char| #[trigger]
                t.lookup(c) == dense_lookup(COMPAT_BMP_DATA@, COMPAT_SUPP_DATA@, c),
    {
        let bmp_data = str_to_chars(COMPAT_BMP_DATA);
        let supp_data = str_to_chars(COMPAT_SUPP_DATA);
        let mut bmp: Vec<char> = Vec::new();
        let mut i: u32 = 0;
        while i < 512
            invariant
                i <= 512,
                bmp@.len() == i,
                forall|j: int| 0 <= j < i ==> (j < bmp_data@.len() ==> #[trigger] bmp@[j] == bmp_data@[j]),
                forall|j: int| 0 <= j < i ==> (j >= bmp_data@.len() ==> #[trigger] bmp@[j] as u32 == BMP_START + j),
            decreases 512 - i,
        {
            if (i as usize) < bmp_data.len() {
                bmp.push(bmp_data[i as usize]);
            } else {
                bmp.push(char_from_u32(BMP_START + i).unwrap());
            }
            i += 1;
        }
        let mut supp: Vec<char> = Vec::new();
        let mut i: u32 = 0;
        while i < 544
            invariant
                i <= 544,
                supp@.len() == i,
                forall|j: int| 0 <= j < i ==> (j < supp_data@.len() ==> #[trigger] supp@[j] == supp_data@[j]),
                forall|j: int| 0 <= j < i ==> (j >= supp_data@.len() ==> #[trigger] supp@[j] as u32 == SUPP_START + j),
            decreases 544 - i,
        {
            if (i as usize) < supp_data.len() {
                supp.push(supp_data[i as usize]);
            } else {
                supp.push(char_from_u32(SUPP_START + i).unwrap());
            }
            i += 1;
        }
        let t = CompatIdeographs { bmp, supp };
        assert forall|c: char| #[trigger]
            t.lookup(c) == dense_lookup(COMPAT_BMP_DATA@, COMPAT_SUPP_DATA@, c) by {
            if in_bmp_range(c) {
                let j = (c as u32 - BMP_START) as int;
                if j >= bmp_data@.len() {
                    lemma_char_u32_injective(t.bmp@[j], c);
                }
            } else if in_supp_range(c) {
                let j = (c as u32 - SUPP_START) as int;
                if j >= supp_data@.len() {
                    lemma_char_u32_injective(t.supp@[j], c);
                }
            }
        }
        t
    }

    /// Builds a table from UTF-8 mapping text: one `source<TAB>target` pair
    /// per line, blank lines and lines starting with `#` ignored, later lines
    /// winning over earlier ones. Each column is trimmed and must hold
    /// exactly one character, and each source must lie in a compatibility
    /// ideograph range; otherwise the result is the message for the first
    /// bad line.
    pub fn from_text(text: &str) -> (r: Result<Self, String>)
        ensures
            match (r, compat_table_spec(text@)) {
                (Ok(t), Ok(m)) => t.wf() && forall|c: char| #[trigger]
                    t.lookup(c) == mapped_char(m, c),
                (Err(e), Err(msg)) => e@ == msg,
                _ => false,
            },
    {
        let v = str_to_chars(text);
        let mut table = Self::default();
        let ghost all = lines(v@);
        let ghost mut m: Map<char, char> = Map::empty();
        let mut pos: usize = 0;
        let mut line_no: usize = 0;
        proof {
            lemma_lines_len(v@);
            assert(v@.skip(0) == v@);
            assert(all.take(0) == Seq::<Seq<char>>::empty());
        }
        while pos < v.len()
            invariant
                pos <= v.len(),
                all == lines(v@),
                v@ == text@,
                all.len() <= v.len(),
                line_no <= all.len(),
                lines(v@.skip(pos as int)) == all.skip(line_no as int),
                fold_lines(all.take(line_no as int), Map::empty(), compat_step()) == Ok::<
                    Map<char, char>,
                    Seq<char>,
                >(m),
                table.wf(),
                forall|c: char| #[trigger] table.lookup(c) == mapped_char(m, c),
            decreases v.len() - pos,
        {
            let (e, next) = next_line(&v, pos);
            let ghost line = v@.subrange(pos as int, e as int);
            proof {
                assert(all.skip(line_no as int)[0] == line);
                assert(all.skip(line_no as int).skip(1) == all.skip(line_no + 1));
                assert((seq![line] + lines(v@.skip(next as int))).skip(1) == lines(
                    v@.skip(next as int),
                ));
                lemma_fold_lines_step(all, line_no as int, Map::empty(), compat_step());
            }
            line_no += 1;
            let r = Self::load_line(&mut table, &v, pos, e, line_no, Ghost(m));
            match r {
                Ok(()) => {
                    proof {
                        m = compat_line_step(m, line, line_no as nat)->Ok_0;
                    }
                },
                Err(err) => {
                    proof {
                        lemma_fold_lines_error(
                            all,
                            line_no as int,
                            Map::empty(),
                            compat_step(),
                            err@,
                        );
                    }
                    return Err(err);
                },
            }
            pos = next;
        }
        proof {
            assert(v@.skip(pos as int) == Seq::<char>::empty());
            assert(all.take(line_no as int) == all);
        }
        Ok(table)
    }

    /// Reads the line `v[lo..hi]` into the table.
    fn load_line(
        table: &mut Self,
        v: &Vec<char>,
        lo: usize,
        hi: usize,
        line_no: usize,
        Ghost(m): Ghost<Map<char, char>>,
    ) -> (r: Result<(), String>)
        requires
            old(table).wf(),
            lo <= hi <= v.len(),
            forall|c: char| #[trigger] old(table).lookup(c) == mapped_char(m, c),
        ensures
            final(table).wf(),
            match (r, compat_line_step(m, v@.subrange(lo as int, hi as int), line_no as nat)) {
                (Ok(_), Ok(m2)) => forall|c: char| #[trigger]
                    final(table).lookup(c) == mapped_char(m2, c),
                (Err(e), Err(msg)) => e@ == msg,
                _ => false,
            },
    {
        match scan_pair_line(v, lo, hi) {
            PairScan::Skip => Ok(()),
            PairScan::MissingTarget => Err(line_error(line_no, "missing target")),
            PairScan::TooManyColumns => Err(line_error(line_no, "too many columns")),
            PairScan::Fields { src_lo, src_hi, dst_lo, dst_hi } => {
                let src = match single_char(
                    v,
                    src_lo,
                    src_hi,
                    line_no,
                    "source",
                    " must be exactly one character",
                ) {
                    Ok(c) => c,
                    Err(e) => return Err(e),
                };
                let dst = match single_char(
                    v,
                    dst_lo,
                    dst_hi,
                    line_no,
                    "target",
                    " must be exactly one character",
                ) {
                    Ok(c) => c,
                    Err(e) => return Err(e),
                };
                let r = table.set(src, dst, line_no);
                proof {
                    if r is Ok {
                        assert forall|c: char| #[trigger]
                            table.lookup(c) == mapped_char(m.insert(src, dst), c) by {}
                    }
                }
                r
            },
        }
    }

    /// Normalizes one character: its mapping inside the two ranges, itself
    /// elsewhere.
    pub fn normalize_char(&self, ch: char) -> (r: char)
        requires
            self.wf(),
        ensures
            r == self.lookup(ch),
            !in_compat_ranges(ch) ==> r == ch,
    {
        let u = ch as u32;
        if BMP_START <= u && u <= BMP_END {
            return self.bmp[(u - BMP_START) as usize];
        }
        if SUPP_START <= u && u <= SUPP_END {
            return self.supp[(u - SUPP_START) as usize];
        }
        ch
    }

    /// Normalizes every character of `chars` in place.
    pub fn normalize_in_place(&self, chars: &mut Vec<char>)
        requires
            self.wf(),
        ensures
            final(chars)@ == old(chars)@.map_values(|c: char| self.lookup(c)),
    {
        let mut i: usize = 0;
        while i < chars.len()
            invariant
                self.wf(),
                i <= chars@.len() == old(chars)@.len(),
                forall|j: int| 0 <= j < i ==> #[trigger] chars@[j] == self.lookup(old(chars)@[j]),
                forall|j: int| i <= j < chars@.len() ==> #[trigger] chars@[j] == old(chars)@[j],
            decreases chars.len() - i,
        {
            let c = self.normalize_char(chars[i]);
            chars.set(i, c);
            i += 1;
        }
        assert(chars@ == old(chars)@.map_values(|c: char| self.lookup(c)));
    }

    /// Normalizes all mapped CJK Compatibility Ideographs of `input`; the
    /// result has the same number of characters.
    pub fn normalize(&self, input: &str) -> (r: String)
        requires
            self.wf(),
        ensures
            r@ == input@.map_values(|c: char| self.lookup(c)),
    {
        let mut output = String::new();
        for ch in it: input.chars()
            invariant
                self.wf(),
                output@ == it.seq().take(it.index() as int).map_values(|c: char| self.lookup(c)),
        {
            let n = self.normalize_char(ch);
            push_char(&mut output, n);
            assert(it.seq().take(it.index() + 1) == it.seq().take(it.index() as int).push(ch));
        }
        output
    }
}

impl Default for CompatIdeographs {
    /// The identity table: every character maps to itself.
    ///
    /// This is the starting point of every table before mappings are loaded.
    fn default() -> (t: Self)
        ensures
            t.wf(),
            forall|c: char| #[trigger] t.lookup(c) == c,
    {
        let mut bmp: Vec<char> = Vec::new();
        let mut i: u32 = 0;
        while i < 512
            invariant
                i <= 512,
                bmp@.len() == i,
                forall|j: int| 0 <= j < i ==> #[trigger] bmp@[j] as u32 == BMP_START + j,
            decreases 512 - i,
        {
            let c = char_from_u32(BMP_START + i).unwrap();
            bmp.push(c);
            i += 1;
        }
        let mut supp: Vec<char> = Vec::new();
        let mut i: u32 = 0;
        while i < 544
            invariant
                i <= 544,
                supp@.len() == i,
                forall|j: int| 0 <= j < i ==> #[trigger] supp@[j] as u32 == SUPP_START + j,
            decreases 544 - i,
        {
            let c = char_from_u32(SUPP_START + i).unwrap();
            supp.push(c);
            i += 1;
        }
        let t = CompatIdeographs { bmp, supp };
        assert forall|c: char| #[trigger] t.lookup(c) == c by {
            if in_bmp_range(c) {
                lemma_char_u32_injective(t.bmp@[(c as u32 - BMP_START) as int], c);
            } else if in_supp_range(c) {
                lemma_char_u32_injective(t.supp@[(c as u32 - SUPP_START) as int], c);
            }
        }
        t
    }
}

/// Normalizes the CJK Compatibility Ideographs of `input` with the built-in table.
pub fn normalize_compat_ideographs(input: &str) -> (r: String)
    ensures
        r@ == input@.map_values(|c: char| dense_lookup(COMPAT_BMP_DATA@, COMPAT_SUPP_DATA@, c)),
{
    CompatIdeographs::builtin().normalize(input)
}

/// A table loaded from text maps only compatibility ideographs: every other
/// character is left unchanged by it.
pub proof fn law_loaded_tables_map_only_compat_ideographs(text: Seq<char>)
    ensures
        compat_table_spec(text) matches Ok(m) ==> forall|c: char|
            #[trigger] m.contains_key(c) ==> in_compat_ranges(c),
        compat_table_spec(text) matches Ok(m) ==> forall|c: char|
            !in_compat_ranges(c) ==> #[trigger] mapped_char(m, c) == c,
{
    let inv = |m: Map<char, char>| forall|c: char| #[trigger] m.contains_key(c) ==> in_compat_ranges(c);
    assert forall|m: Map<char, char>, line: Seq<char>, n: nat|
        inv(m) && (#[trigger] compat_step()(m, line, n)) is Ok implies inv(
            compat_step()(m, line, n)->Ok_0,
        ) by {}
    lemma_fold_lines_preserves(lines(text), Map::empty(), compat_step(), inv);
}

/// A mapping line `src<TAB>dst` of two single characters (neither one
/// whitespace, `src` not `#`) is accepted exactly when `src` lies in
/// `U+F900..=U+FAFF` or in `U+2F800..=U+2FA1F`, whatever `dst` is; it then
/// records `src -> dst` over what was read before, and otherwise it is
/// refused with the out-of-range message.
pub proof fn law_mapping_line_accepted_in_both_ranges(
    m: Map<char, char>,
    src: char,
    dst: char,
    line_no: nat,
)
    requires
        !is_white_space(src),
        !is_white_space(dst),
        src != '#',
    ensures
        (0xF900 <= src as u32 <= 0xFAFF || 0x2F800 <= src as u32 <= 0x2FA1F) ==> compat_line_step(
            m,
            seq![src, '\t', dst],
            line_no,
        ) == Ok::<Map<char, char>, Seq<char>>(m.insert(src, dst)),
        !(0xF900 <= src as u32 <= 0xFAFF || 0x2F800 <= src as u32 <= 0x2FA1F) ==> compat_line_step(
            m,
            seq![src, '\t', dst],
            line_no,
        ) == Err::<Map<char, char>, Seq<char>>(outside_ranges_message(line_no, src)),
{
    lemma_two_column_line(src, dst);
}

/// The table text of one mapping line `src<TAB>dst` and a line break loads
/// exactly when `src` lies in one of the two compatibility ideograph ranges,
/// and the loaded table then maps `src` to `dst` and nothing else.
pub proof fn law_one_line_table(src: char, dst: char)
    requires
        !is_white_space(src),
        !is_white_space(dst),
        src != '#',
    ensures
        compat_table_spec(seq![src, '\t', dst, '\n']) is Ok <==> (0xF900 <= src as u32 <= 0xFAFF
            || 0x2F800 <= src as u32 <= 0x2FA1F),
        compat_table_spec(seq![src, '\t', dst, '\n']) matches Ok(m) ==> mapped_char(m, src) == dst
            && forall|c: char| c != src ==> #[trigger] mapped_char(m, c) == c,
{
    let line = seq![src, '\t', dst];
    assert(is_white_space('\n') && is_white_space('\r') && is_white_space('\t'));
    assert(line.push('\n') =~= seq![src, '\t', dst, '\n']);
    assert(line.last() == dst);
    lemma_single_line_text(line);
    lemma_fold_single_line(line, Map::<char, char>::empty(), compat_step());
    law_mapping_line_accepted_in_both_ranges(Map::empty(), src, dst, 1);
}

/// Normalization is position-stable: each character is replaced by exactly
/// one character, so the text keeps its length and every position is
/// normalized on its own.
pub proof fn law_normalization_keeps_positions(t: CompatIdeographs, s: Seq<char>)
    ensures
        s.map_values(|c: char| t.lookup(c)).len() == s.len(),
        forall|i: int|
            0 <= i < s.len() ==> s.map_values(|c: char| t.lookup(c))[i] == t.lookup(#[trigger] s[i]),
{
}

/// Every target of the dense tables is settled: it lies outside both
/// compatibility ideograph ranges, or it is the slot's own code point.
pub open spec fn targets_settled(bmp: Seq<char>, supp: Seq<char>) -> bool {
    &&& forall|i: int|
        0 <= i < bmp.len() && i < BMP_LEN ==> slot_settled(#[trigger] bmp[i], BMP_START + i)
    &&& forall|i: int|
        0 <= i < supp.len() && i < SUPP_LEN ==> slot_settled(#[trigger] supp[i], SUPP_START + i)
}

/// Normalizing with settled tables is idempotent: a second pass changes
/// nothing. The built-in data is of this kind
/// ([`lemma_builtin_data_settled`]).
pub proof fn law_settled_normalization_is_idempotent(bmp: Seq<char>, supp: Seq<char>, s: Seq<char>)
    requires
        targets_settled(bmp, supp),
    ensures
        s.map_values(|c: char| dense_lookup(bmp, supp, c)).map_values(
            |c: char| dense_lookup(bmp, supp, c),
        ) == s.map_values(|c: char| dense_lookup(bmp, supp, c)),
{
    assert forall|c: char|
        #[trigger] dense_lookup(bmp, supp, dense_lookup(bmp, supp, c)) == dense_lookup(
            bmp,
            supp,
            c,
        ) by {
        let d = dense_lookup(bmp, supp, c);
        if in_bmp_range(c) {
            let i = (c as u32 - BMP_START) as int;
            if i < bmp.len() {
                lemma_char_u32_injective(bmp[i], c);
            }
        } else if in_supp_range(c) {
            let i = (c as u32 - SUPP_START) as int;
            if i < supp.len() {
                lemma_char_u32_injective(supp[i], c);
            }
        }
    }
    let once = s.map_values(|c: char| dense_lookup(bmp, supp, c));
    assert(once.map_values(|c: char| dense_lookup(bmp, supp, c)) =~= once);
}

/// A target is settled for the slot of code point `u`: it lies outside both
/// compatibility ideograph ranges, or it is `u` itself.
pub open spec fn slot_settled(c: char, u: int) -> bool {
    !in_compat_ranges(c) || c as u32 == u
}

/// Every slot from `i` on of the dense data `s`, whose slot 0 is the code
/// point `start`, is settled.
pub open spec fn settled_from(s: Seq<char>, start: int, i: nat) -> bool
    decreases s.len() - i,
{
    if i >= s.len() {
        true
    } else {
        slot_settled(s[i as int], start + i) && settled_from(s, start, i + 1)
    }
}

proof fn lemma_settled_from(s: Seq<char>, start: int, i: nat)
    requires
        settled_from(s, start, i),
    ensures
        forall|j: int| i <= j < s.len() ==> slot_settled(#[trigger] s[j], start + j),
    decreases s.len() - i,
{
    if i < s.len() {
        lemma_settled_from(s, start, i + 1);
    }
}

/// The built-in data is settled: every target is a character outside both
/// compatibility ideograph ranges, or the slot's own code point.
///
/// Checked slot by slot over the two data literals, which are revealed here.
#[verifier::rlimit(100)]
pub proof fn lemma_builtin_data_settled()
    ensures
        targets_settled(COMPAT_BMP_DATA@, COMPAT_SUPP_DATA@),
{
    reveal_strlit("\
豈更車賈滑串句龜龜契金喇奈懶癩羅蘿螺裸邏樂洛烙珞落酪駱亂卵欄爛蘭\
鸞嵐濫藍襤拉臘蠟廊朗浪狼郎來冷勞擄櫓爐盧老蘆虜路露魯鷺碌祿綠菉錄\
鹿論壟弄籠聾牢磊賂雷壘屢樓淚漏累縷陋勒肋凜凌稜綾菱陵讀拏樂諾丹寧\
怒率異北磻便復不泌數索參塞省葉說殺辰沈拾若掠略亮兩凉梁糧良諒量勵\
呂女廬旅濾礪閭驪麗黎力曆歷轢年憐戀撚漣煉璉秊練聯輦蓮連鍊列劣咽烈\
裂說廉念捻殮簾獵令囹寧嶺怜玲瑩羚聆鈴零靈領例禮醴隸惡了僚寮尿料樂\
燎療蓼遼龍暈阮劉杻柳流溜琉留硫紐類六戮陸倫崙淪輪律慄栗率隆利吏履\
易李梨泥理痢罹裏裡里離匿溺吝燐璘藺隣鱗麟林淋臨立笠粒狀炙識什茶刺\
切度拓糖宅洞暴輻行降見廓兀嗀\u{FA0E}\u{FA0F}塚\u{FA11}晴\u{FA13}\u{FA14}凞猪益礼神祥福靖精羽\u{FA1F}\
蘒\u{FA21}諸\u{FA23}\u{FA24}逸都\u{FA27}\u{FA28}\u{FA29}飯飼館鶴郞隷侮僧免勉勤卑喝嘆器塀墨層屮悔慨憎\
懲敏既暑梅海渚漢煮爫琢碑社祉祈祐祖祝禍禎穀突節練縉繁署者臭艹艹著\
褐視謁謹賓贈辶逸難響頻恵𤋮舘\u{FA6E}\u{FA6F}並况全侀充冀勇勺喝啕喙嗢塚墳奄奔\
婢嬨廒廙彩徭惘慎愈憎慠懲戴揄搜摒敖晴朗望杖歹殺流滛滋漢瀞煮瞧爵犯\
猪瑱甆画瘝瘟益盛直睊着磌窱節类絛練缾者荒華蝹襁覆視調諸請謁諾諭謹\
變贈輸遲醙鉶陼難靖韛響頋頻鬒龜𢡊𢡄𣏕㮝䀘䀹𥉉𥳐𧻓齃龎\u{FADA}\u{FADB}\u{FADC}\u{FADD}\u{FADE}\u{FADF}\
\u{FAE0}\u{FAE1}\u{FAE2}\u{FAE3}\u{FAE4}\u{FAE5}\u{FAE6}\u{FAE7}\u{FAE8}\u{FAE9}\u{FAEA}\u{FAEB}\u{FAEC}\u{FAED}\u{FAEE}\u{FAEF}\u{FAF0}\u{FAF1}\u{FAF2}\u{FAF3}\u{FAF4}\u{FAF5}\u{FAF6}\u{FAF7}\u{FAF8}\u{FAF9}\u{FAFA}\u{FAFB}\u{FAFC}\u{FAFD}\u{FAFE}\u{FAFF}");
    reveal_strlit("\
丽丸乁𠄢你侮侻倂偺備僧像㒞𠘺免兔兤具𠔜㒹內再𠕋冗冤仌冬况𩇟凵刃㓟\
刻剆割剷㔕勇勉勤勺包匆北卉卑博即卽卿卿卿𠨬灰及叟𠭣叫叱吆咞吸呈周\
咢哶唐啓啣善善喙喫喳嗂圖嘆圗噑噴切壮城埴堍型堲報墬𡓤売壷夆多夢奢\
𡚨𡛪姬娛娧姘婦㛮㛼嬈嬾嬾𡧈寃寘寧寳𡬘寿将当尢㞁屠屮峀岍𡷤嵃𡷦嵮嵫\
嵼巡巢㠯巽帨帽幩㡢𢆃㡼庰庳庶廊𪎒廾𢌱𢌱舁弢弢㣇𣊸𦇚形彫㣣徚忍志忹\
悁㤺㤜悔𢛔惇慈慌慎慌慺憎憲憤憯懞懲懶成戛扝抱拔捐𢬌挽拼捨掃揤𢯱搢\
揅掩㨮摩摾撝摷㩬敏敬𣀊旣書晉㬙暑㬈㫤冒冕最暜肭䏙朗望朡杞杓𣏃㭉柺\
枅桒梅𣑭梎栟椔㮝楂榣槪檨𣚣櫛㰘次𣢧歔㱎歲殟殺殻𣪍𡴋𣫺汎𣲼沿泍汧洖\
派海流浩浸涅𣴞洴港湮㴳滋滇𣻑淹潮𣽞𣾎濆瀹瀞瀛㶖灊災灷炭𠔥煅𤉣熜𤎫\
爨爵牐𤘈犀犕𤜵𤠔獺王㺬玥㺸㺸瑇瑜瑱璅瓊㼛甤𤰶甾𤲒異𢆟瘐𤾡𤾸𥁄㿼䀈\
直𥃳𥃲𥄙𥄳眞真真睊䀹瞋䁆䂖𥐝硎碌磌䃣𥘦祖𥚚𥛅福秫䄯穀穊穏𥥼𥪧𥪧竮\
䈂𥮫篆築䈧𥲀糒䊠糨糣紀𥾆絣䌁緇縂繅䌴𦈨𦉇䍙𦋙罺𦌾羕翺者𦓚𦔣聠𦖨聰\
𣍟䏕育脃䐋脾媵𦞧𦞵𣎓𣎜舁舄辞䑫芑芋芝劳花芳芽苦𦬼若茝荣莭茣莽菧著\
荓菊菌菜𦰶𦵫𦳕䔫蓱蓳蔖𧏊蕤𦼬䕝䕡𦾱𧃒䕫虐虜虧虩蚩蚈蜎蛢蝹蜨蝫螆䗗\
蟡蠁䗹衠衣𧙧裗裞䘵裺㒻𧢮𧥦䚾䛇誠諭變豕𧲨貫賁贛起𧼯𠠄跋趼跰𠣞軔輸\
𨗒𨗭邔郱鄑𨜮鄛鈸鋗鋘鉼鏹鐕𨯺開䦕閷𨵷䧦雃嶲霣𩅅𩈚䩮䩶韠𩐊䪲𩒖頋頋\
頩𩖶飢䬳餩馧駂駾䯎𩬰鬒鱀鳽䳎䳭鵧𪃎䳸𪄅𪈎𪊑麻䵖黹黾鼅鼏鼖鼻𪘀\u{2FA1E}\u{2FA1F}");
    assert(COMPAT_BMP_DATA@.len() == BMP_LEN);
    assert(COMPAT_SUPP_DATA@.len() == SUPP_LEN);
    reveal_with_fuel(settled_from, 40);
    assert(settled_from(COMPAT_BMP_DATA@, BMP_START as int, 480));
    assert(settled_from(COMPAT_BMP_DATA@, BMP_START as int, 448));
    assert(settled_from(COMPAT_BMP_DATA@, BMP_START as int, 416));
    assert(settled_from(COMPAT_BMP_DATA@, BMP_START as int, 384));
    assert(settled_from(COMPAT_BMP_DATA@, BMP_START as int, 352));
    assert(settled_from(COMPAT_BMP_DATA@, BMP_START as int, 320));
    assert(settled_from(COMPAT_BMP_DATA@, BMP_START as int, 288));
    assert(settled_from(COMPAT_BMP_DATA@, BMP_START as int, 256));
    assert(settled_from(COMPAT_BMP_DATA@, BMP_START as int, 224));
    assert(settled_from(COMPAT_BMP_DATA@, BMP_START as int, 192));
    assert(settled_from(COMPAT_BMP_DATA@, BMP_START as int, 160));
    assert(settled_from(COMPAT_BMP_DATA@, BMP_START as int, 128));
    assert(settled_from(COMPAT_BMP_DATA@, BMP_START as int, 96));
    assert(settled_from(COMPAT_BMP_DATA@, BMP_START as int, 64));
    assert(settled_from(COMPAT_BMP_DATA@, BMP_START as int, 32));
    assert(settled_from(COMPAT_BMP_DATA@, BMP_START as int, 0));
    assert(settled_from(COMPAT_SUPP_DATA@, SUPP_START as int, 512));
    assert(settled_from(COMPAT_SUPP_DATA@, SUPP_START as int, 480));
    assert(settled_from(COMPAT_SUPP_DATA@, SUPP_START as int, 448));
    assert(settled_from(COMPAT_SUPP_DATA@, SUPP_START as int, 416));
    assert(settled_from(COMPAT_SUPP_DATA@, SUPP_START as int, 384));
    assert(settled_from(COMPAT_SUPP_DATA@, SUPP_START as int, 352));
    assert(settled_from(COMPAT_SUPP_DATA@, SUPP_START as int, 320));
    assert(settled_from(COMPAT_SUPP_DATA@, SUPP_START as int, 288));
    assert(settled_from(COMPAT_SUPP_DATA@, SUPP_START as int, 256));
    assert(settled_from(COMPAT_SUPP_DATA@, SUPP_START as int, 224));
    assert(settled_from(COMPAT_SUPP_DATA@, SUPP_START as int, 192));
    assert(settled_from(COMPAT_SUPP_DATA@, SUPP_START as int, 160));
    assert(settled_from(COMPAT_SUPP_DATA@, SUPP_START as int, 128));
    assert(settled_from(COMPAT_SUPP_DATA@, SUPP_START as int, 96));
    assert(settled_from(COMPAT_SUPP_DATA@, SUPP_START as int, 64));
    assert(settled_from(COMPAT_SUPP_DATA@, SUPP_START as int, 32));
    assert(settled_from(COMPAT_SUPP_DATA@, SUPP_START as int, 0));
    lemma_settled_from(COMPAT_BMP_DATA@, BMP_START as int, 0);
    lemma_settled_from(COMPAT_SUPP_DATA@, SUPP_START as int, 0);
}

/// Normalizing with the built-in table twice gives what normalizing once
/// gives.
pub proof fn law_builtin_normalization_is_idempotent(s: Seq<char>)
    ensures
        s.map_values(|c: char| dense_lookup(COMPAT_BMP_DATA@, COMPAT_SUPP_DATA@, c)).map_values(
            |c: char| dense_lookup(COMPAT_BMP_DATA@, COMPAT_SUPP_DATA@, c),
        ) == s.map_values(|c: char| dense_lookup(COMPAT_BMP_DATA@, COMPAT_SUPP_DATA@, c)),
{
    lemma_builtin_data_settled();
    law_settled_normalization_is_idempotent(COMPAT_BMP_DATA@, COMPAT_SUPP_DATA@, s);
}

/// Characters are determined by their scalar values.
pub proof fn lemma_char_u32_injective(a: char, b: char)
    ensures
        (a as u32 == b as u32) == (a == b),
{
}
} // verus!
