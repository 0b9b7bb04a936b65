# opencc_jieba_rs

Unicode compatibility normalization and dictionary tables for
Simplified/Traditional Chinese conversion, verified with Verus.

- `src/` is the verified library: the table parsers (`source<TAB>target`
  lines), the CJK Compatibility Ideograph and curated normalizers, the
  phrase table with key-length metadata, and the text handling of the
  command-line tool (encoding labels, byte order marks, line endings,
  document formats and output names, segmentation output).
- `app/` holds what stays outside verification: tables cached once per
  process, the serde form of a phrase table, the tool's argument builders,
  its file and console I/O, and its command handlers, which take the
  conversion and segmentation engine as a parameter.
- `tests/` exercises the library.

The built-in CJK Compatibility Ideograph data holds the UnicodeData
decomposition target of every code point of `U+F900..=U+FAFF` and
`U+2F800..=U+2FA1F`. The built-in curated table holds the compatibility
decompositions of the Kangxi radicals and of the two CJK radical supplement
characters that have one, and the glyph variants 聼→聽, 竒→奇, 羙→美,
䂖→石, 甁→瓶 and 噐→器.
