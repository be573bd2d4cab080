//! What is said when a turn ends, in the language of the channel.

use vstd::prelude::*;
use crate::decimal::decimal;
use crate::decimal::u64_text;
use crate::text::at_most;
use crate::text::byte_len;
use crate::text::lemma_occurs;
use crate::text::occurs;
use crate::text::opt_text;
use crate::text::same_text;
use crate::text::slice_chars;
use crate::text::take_chars;
use crate::text::utf8_len;

verus! {

/// The languages that messages come in.
#[derive(Debug, Clone, Copy, PartialEq, Eq, Structural)]
pub enum Lang {
    En,
    ZhCn,
    ZhTw,
    Ja,
    Ko,
    Es,
    De,
    Fr,
    Pt,
    Ar,
}

impl Lang {
    /// Whether the language is Chinese, in either script.
    pub open spec fn chinese(self) -> bool {
        self == Lang::ZhCn || self == Lang::ZhTw
    }

    /// Whether the language is Chinese, in either script.
    pub fn is_chinese(self) -> (r: bool)
        ensures
            r == self.chinese(),
    {
        match self {
            Lang::ZhCn => true,
            Lang::ZhTw => true,
            _ => false,
        }
    }

    /// The Chinese text or the other one.
    pub open spec fn either(self, chinese: Seq<char>, other: Seq<char>) -> Seq<char> {
        if self.chinese() {
            chinese
        } else {
            other
        }
    }

    /// The Chinese text or the other one.
    pub fn pick<'a>(self, chinese: &'a str, other: &'a str) -> (r: &'a str)
        ensures
            r@ == self.either(chinese@, other@),
    {
        if self.is_chinese() {
            chinese
        } else {
            other
        }
    }
}

// ─── stop reasons ────────────────────────────────────────────────────────

/// Why a turn ended.
#[derive(Debug, Clone, Copy, PartialEq, Eq, Structural)]
pub enum StopReason {
    EndTurn,
    Cancelled,
    MaxTokens,
    StopSequence,
    Error,
    Timeout,
    Other,
}

/// The reason that a word stands for.
pub open spec fn reason_of(word: Seq<char>) -> StopReason {
    if word == "end_turn"@ {
        StopReason::EndTurn
    } else if word == "cancelled"@ {
        StopReason::Cancelled
    } else if word == "max_tokens"@ {
        StopReason::MaxTokens
    } else if word == "stop_sequence"@ {
        StopReason::StopSequence
    } else if word == "error"@ {
        StopReason::Error
    } else if word == "timeout"@ {
        StopReason::Timeout
    } else {
        StopReason::Other
    }
}

/// The reason that a word stands for.
pub fn stop_reason(word: &str) -> (r: StopReason)
    ensures
        r == reason_of(word@),
{
    if same_text(word, "end_turn") {
        StopReason::EndTurn
    } else if same_text(word, "cancelled") {
        StopReason::Cancelled
    } else if same_text(word, "max_tokens") {
        StopReason::MaxTokens
    } else if same_text(word, "stop_sequence") {
        StopReason::StopSequence
    } else if same_text(word, "error") {
        StopReason::Error
    } else if same_text(word, "timeout") {
        StopReason::Timeout
    } else {
        StopReason::Other
    }
}

/// A reason in the words of a language, where it has words for it.
pub open spec fn reason_words(reason: StopReason, lang: Lang) -> Option<Seq<char>> {
    match lang {
        Lang::En => match reason {
            StopReason::EndTurn => Some("Completed"@),
            StopReason::Cancelled => Some("Cancelled"@),
            StopReason::MaxTokens => Some("Max length reached"@),
            StopReason::StopSequence => Some("Stop sequence"@),
            StopReason::Error => Some("Error"@),
            StopReason::Timeout => Some("Timeout"@),
            _ => None,
        },
        Lang::ZhCn => match reason {
            StopReason::EndTurn => Some("正常结束"@),
            StopReason::Cancelled => Some("已取消"@),
            StopReason::MaxTokens => Some("达到最大长度"@),
            StopReason::StopSequence => Some("遇到停止序列"@),
            StopReason::Error => Some("错误"@),
            StopReason::Timeout => Some("超时"@),
            _ => None,
        },
        Lang::ZhTw => match reason {
            StopReason::EndTurn => Some("正常結束"@),
            StopReason::Cancelled => Some("已取消"@),
            StopReason::MaxTokens => Some("達到最大長度"@),
            StopReason::StopSequence => Some("遇到停止序列"@),
            StopReason::Error => Some("錯誤"@),
            StopReason::Timeout => Some("逾時"@),
            _ => None,
        },
        Lang::Ja => match reason {
            StopReason::EndTurn => Some("正常終了"@),
            StopReason::Cancelled => Some("キャンセル"@),
            StopReason::MaxTokens => Some("最大トークン数到達"@),
            StopReason::StopSequence => Some("停止シーケンス"@),
            StopReason::Error => Some("エラー"@),
            StopReason::Timeout => Some("タイムアウト"@),
            _ => None,
        },
        Lang::Ko => match reason {
            StopReason::EndTurn => Some("정상 종료"@),
            StopReason::Cancelled => Some("취소됨"@),
            StopReason::MaxTokens => Some("최대 길이 도달"@),
            StopReason::StopSequence => Some("정지 시퀀스"@),
            StopReason::Error => Some("오류"@),
            StopReason::Timeout => Some("시간 초과"@),
            _ => None,
        },
        Lang::Es => match reason {
            StopReason::EndTurn => Some("Finalizado"@),
            StopReason::Cancelled => Some("Cancelado"@),
            StopReason::MaxTokens => Some("Longitud máxima alcanzada"@),
            StopReason::Error => Some("Error"@),
            StopReason::Timeout => Some("Tiempo agotado"@),
            _ => None,
        },
        Lang::De => match reason {
            StopReason::EndTurn => Some("Abgeschlossen"@),
            StopReason::Cancelled => Some("Abgebrochen"@),
            StopReason::MaxTokens => Some("Maximale Länge erreicht"@),
            StopReason::Error => Some("Fehler"@),
            StopReason::Timeout => Some("Zeitüberschreitung"@),
            _ => None,
        },
        Lang::Fr => match reason {
            StopReason::EndTurn => Some("Terminé"@),
            StopReason::Cancelled => Some("Annulé"@),
            StopReason::MaxTokens => Some("Longueur maximale atteinte"@),
            StopReason::Error => Some("Erreur"@),
            StopReason::Timeout => Some("Délai dépassé"@),
            _ => None,
        },
        Lang::Pt => match reason {
            StopReason::EndTurn => Some("Concluído"@),
            StopReason::Cancelled => Some("Cancelado"@),
            StopReason::MaxTokens => Some("Comprimento máximo atingido"@),
            StopReason::Error => Some("Erro"@),
            StopReason::Timeout => Some("Tempo esgotado"@),
            _ => None,
        },
        Lang::Ar => match reason {
            StopReason::EndTurn => Some("اكتمل"@),
            StopReason::Cancelled => Some("ملغى"@),
            StopReason::MaxTokens => Some("تم بلوغ الحد الأقصى"@),
            StopReason::Error => Some("خطأ"@),
            StopReason::Timeout => Some("انتهت المهلة"@),
            _ => None,
        },
    }
}

fn words_for(reason: StopReason, lang: Lang) -> (r: Option<&'static str>)
    ensures
        opt_text(r) == reason_words(reason, lang),
{
    match lang {
        Lang::En => match reason {
            StopReason::EndTurn => Some("Completed"),
            StopReason::Cancelled => Some("Cancelled"),
            StopReason::MaxTokens => Some("Max length reached"),
            StopReason::StopSequence => Some("Stop sequence"),
            StopReason::Error => Some("Error"),
            StopReason::Timeout => Some("Timeout"),
            _ => None,
        },
        Lang::ZhCn => match reason {
            StopReason::EndTurn => Some("正常结束"),
            StopReason::Cancelled => Some("已取消"),
            StopReason::MaxTokens => Some("达到最大长度"),
            StopReason::StopSequence => Some("遇到停止序列"),
            StopReason::Error => Some("错误"),
            StopReason::Timeout => Some("超时"),
            _ => None,
        },
        Lang::ZhTw => match reason {
            StopReason::EndTurn => Some("正常結束"),
            StopReason::Cancelled => Some("已取消"),
            StopReason::MaxTokens => Some("達到最大長度"),
            StopReason::StopSequence => Some("遇到停止序列"),
            StopReason::Error => Some("錯誤"),
            StopReason::Timeout => Some("逾時"),
            _ => None,
        },
        Lang::Ja => match reason {
            StopReason::EndTurn => Some("正常終了"),
            StopReason::Cancelled => Some("キャンセル"),
            StopReason::MaxTokens => Some("最大トークン数到達"),
            StopReason::StopSequence => Some("停止シーケンス"),
            StopReason::Error => Some("エラー"),
            StopReason::Timeout => Some("タイムアウト"),
            _ => None,
        },
        Lang::Ko => match reason {
            StopReason::EndTurn => Some("정상 종료"),
            StopReason::Cancelled => Some("취소됨"),
            StopReason::MaxTokens => Some("최대 길이 도달"),
            StopReason::StopSequence => Some("정지 시퀀스"),
            StopReason::Error => Some("오류"),
            StopReason::Timeout => Some("시간 초과"),
            _ => None,
        },
        Lang::Es => match reason {
            StopReason::EndTurn => Some("Finalizado"),
            StopReason::Cancelled => Some("Cancelado"),
            StopReason::MaxTokens => Some("Longitud máxima alcanzada"),
            StopReason::Error => Some("Error"),
            StopReason::Timeout => Some("Tiempo agotado"),
            _ => None,
        },
        Lang::De => match reason {
            StopReason::EndTurn => Some("Abgeschlossen"),
            StopReason::Cancelled => Some("Abgebrochen"),
            StopReason::MaxTokens => Some("Maximale Länge erreicht"),
            StopReason::Error => Some("Fehler"),
            StopReason::Timeout => Some("Zeitüberschreitung"),
            _ => None,
        },
        Lang::Fr => match reason {
            StopReason::EndTurn => Some("Terminé"),
            StopReason::Cancelled => Some("Annulé"),
            StopReason::MaxTokens => Some("Longueur maximale atteinte"),
            StopReason::Error => Some("Erreur"),
            StopReason::Timeout => Some("Délai dépassé"),
            _ => None,
        },
        Lang::Pt => match reason {
            StopReason::EndTurn => Some("Concluído"),
            StopReason::Cancelled => Some("Cancelado"),
            StopReason::MaxTokens => Some("Comprimento máximo atingido"),
            StopReason::Error => Some("Erro"),
            StopReason::Timeout => Some("Tempo esgotado"),
            _ => None,
        },
        Lang::Ar => match reason {
            StopReason::EndTurn => Some("اكتمل"),
            StopReason::Cancelled => Some("ملغى"),
            StopReason::MaxTokens => Some("تم بلوغ الحد الأقصى"),
            StopReason::Error => Some("خطأ"),
            StopReason::Timeout => Some("انتهت المهلة"),
            _ => None,
        },
    }
}

/// Why a turn ended, in the words of a language; as it stands where the language
/// has no words for it.
pub open spec fn localized(reason: Seq<char>, lang: Lang) -> Seq<char> {
    match reason_words(reason_of(reason), lang) {
        Some(words) => words,
        None => reason,
    }
}

/// Why a turn ended, in the words of a language.
pub fn localize_stop_reason(reason: &str, lang: Lang) -> (r: String)
    ensures
        r@ == localized(reason@, lang),
{
    match words_for(stop_reason(reason), lang) {
        Some(words) => words.to_owned(),
        None => reason.to_owned(),
    }
}

// ─── the text of a turn ──────────────────────────────────────────────────

/// How many bytes of text are sent in full.
pub const MAX_MESSAGE_LEN: usize = 2000;

/// How many characters of a long text are kept at each end.
pub const KEPT_CHARS: usize = 500;

/// The last `n` characters of `s`, or all of it where it has fewer.
pub open spec fn last_chars(s: Seq<char>, n: int) -> Seq<char> {
    if s.len() <= n {
        s
    } else {
        s.skip(s.len() - n)
    }
}

/// What is said of a turn that produced `content` with `tools` tool calls: the
/// text and how many calls there were, or the two ends of a long text and its
/// length in bytes.
pub open spec fn completion(content: Seq<char>, tools: nat, lang: Lang) -> Seq<char> {
    if content.len() == 0 {
        lang.either("(无文本输出, "@, "(No text output, "@) + decimal(tools) + lang.either(
            " 次工具调用)"@,
            " tool calls)"@,
        )
    } else if utf8_len(content) <= MAX_MESSAGE_LEN {
        if tools > 0 {
            content + "\n\n["@ + decimal(tools) + lang.either(" 次工具调用]"@, " tool calls]"@)
        } else {
            content
        }
    } else {
        at_most(content, KEPT_CHARS as int) + "\n\n...\n\n"@ + last_chars(content, KEPT_CHARS as int)
            + lang.either("\n\n[完整回复: "@, "\n\n[Full response: "@) + decimal(utf8_len(content))
            + lang.either(" 字符, "@, " chars, "@) + decimal(tools) + lang.either(
            " 次工具调用]"@,
            " tool calls]"@,
        )
    }
}

/// The last `n` characters of `s`, or all of it where it has fewer.
fn take_last_chars<'a>(s: &'a str, n: usize) -> (r: &'a str)
    ensures
        r@ == last_chars(s@, n as int),
{
    let len: usize = s.unicode_len();
    if len <= n {
        s
    } else {
        assert(s@.subrange(len - n, len as int) =~= s@.skip(len - n));
        slice_chars(s, len - n, len)
    }
}

/// What is said of a turn that ended.
pub fn format_completion(content: &str, tool_count: usize, lang: Lang) -> (r: String)
    ensures
        r@ == completion(content@, tool_count as nat, lang),
{
    let tools = u64_text(tool_count as u64);
    if content.is_empty() {
        let mut body = lang.pick("(无文本输出, ", "(No text output, ").to_owned();
        body.append(tools.as_str());
        body.append(lang.pick(" 次工具调用)", " tool calls)"));
        return body;
    }
    let bytes: usize = byte_len(content);
    if bytes <= MAX_MESSAGE_LEN {
        let mut body = content.to_owned();
        if tool_count > 0 {
            body.append("\n\n[");
            body.append(tools.as_str());
            body.append(lang.pick(" 次工具调用]", " tool calls]"));
        }
        return body;
    }
    let mut body = take_chars(content, KEPT_CHARS).to_owned();
    body.append("\n\n...\n\n");
    body.append(take_last_chars(content, KEPT_CHARS));
    body.append(lang.pick("\n\n[完整回复: ", "\n\n[Full response: "));
    body.append(u64_text(bytes as u64).as_str());
    body.append(lang.pick(" 字符, ", " chars, "));
    body.append(tools.as_str());
    body.append(lang.pick(" 次工具调用]", " tool calls]"));
    body
}

// ─── what holds in every language ────────────────────────────────────────

/// Two different reasons are never told in the same words.
pub proof fn lemma_reasons_are_told_apart(a: StopReason, b: StopReason, lang: Lang)
    requires
        a != b,
        reason_words(a, lang) is Some,
        reason_words(b, lang) is Some,
    ensures
        reason_words(a, lang) != reason_words(b, lang),
{
    reveal_strlit("Completed");
    reveal_strlit("Cancelled");
    reveal_strlit("Max length reached");
    reveal_strlit("Stop sequence");
    reveal_strlit("Error");
    reveal_strlit("Timeout");
    reveal_strlit("正常结束");
    reveal_strlit("已取消");
    reveal_strlit("达到最大长度");
    reveal_strlit("遇到停止序列");
    reveal_strlit("错误");
    reveal_strlit("超时");
    reveal_strlit("正常結束");
    reveal_strlit("達到最大長度");
    reveal_strlit("錯誤");
    reveal_strlit("逾時");
    reveal_strlit("正常終了");
    reveal_strlit("キャンセル");
    reveal_strlit("最大トークン数到達");
    reveal_strlit("停止シーケンス");
    reveal_strlit("エラー");
    reveal_strlit("タイムアウト");
    reveal_strlit("정상 종료");
    reveal_strlit("취소됨");
    reveal_strlit("최대 길이 도달");
    reveal_strlit("정지 시퀀스");
    reveal_strlit("오류");
    reveal_strlit("시간 초과");
    reveal_strlit("Finalizado");
    reveal_strlit("Cancelado");
    reveal_strlit("Longitud máxima alcanzada");
    reveal_strlit("Tiempo agotado");
    reveal_strlit("Abgeschlossen");
    reveal_strlit("Abgebrochen");
    reveal_strlit("Maximale Länge erreicht");
    reveal_strlit("Fehler");
    reveal_strlit("Zeitüberschreitung");
    reveal_strlit("Terminé");
    reveal_strlit("Annulé");
    reveal_strlit("Longueur maximale atteinte");
    reveal_strlit("Erreur");
    reveal_strlit("Délai dépassé");
    reveal_strlit("Concluído");
    reveal_strlit("Comprimento máximo atingido");
    reveal_strlit("Erro");
    reveal_strlit("Tempo esgotado");
    reveal_strlit("اكتمل");
    reveal_strlit("ملغى");
    reveal_strlit("تم بلوغ الحد الأقصى");
    reveal_strlit("خطأ");
    reveal_strlit("انتهت المهلة");
    assert("Completed"@.len() == 9);
    assert("Cancelled"@.len() == 9);
    assert("Max length reached"@.len() == 18);
    assert("Stop sequence"@.len() == 13);
    assert("Error"@.len() == 5);
    assert("Timeout"@.len() == 7);
    assert("正常结束"@.len() == 4);
    assert("已取消"@.len() == 3);
    assert("达到最大长度"@.len() == 6);
    assert("遇到停止序列"@.len() == 6);
    assert("错误"@.len() == 2);
    assert("超时"@.len() == 2);
    assert("正常結束"@.len() == 4);
    assert("達到最大長度"@.len() == 6);
    assert("錯誤"@.len() == 2);
    assert("逾時"@.len() == 2);
    assert("正常終了"@.len() == 4);
    assert("キャンセル"@.len() == 5);
    assert("最大トークン数到達"@.len() == 9);
    assert("停止シーケンス"@.len() == 7);
    assert("エラー"@.len() == 3);
    assert("タイムアウト"@.len() == 6);
    assert("정상 종료"@.len() == 5);
    assert("취소됨"@.len() == 3);
    assert("최대 길이 도달"@.len() == 8);
    assert("정지 시퀀스"@.len() == 6);
    assert("오류"@.len() == 2);
    assert("시간 초과"@.len() == 5);
    assert("Finalizado"@.len() == 10);
    assert("Cancelado"@.len() == 9);
    assert("Longitud máxima alcanzada"@.len() == 25);
    assert("Tiempo agotado"@.len() == 14);
    assert("Abgeschlossen"@.len() == 13);
    assert("Abgebrochen"@.len() == 11);
    assert("Maximale Länge erreicht"@.len() == 23);
    assert("Fehler"@.len() == 6);
    assert("Zeitüberschreitung"@.len() == 18);
    assert("Terminé"@.len() == 7);
    assert("Annulé"@.len() == 6);
    assert("Longueur maximale atteinte"@.len() == 26);
    assert("Erreur"@.len() == 6);
    assert("Délai dépassé"@.len() == 13);
    assert("Concluído"@.len() == 9);
    assert("Comprimento máximo atingido"@.len() == 27);
    assert("Erro"@.len() == 4);
    assert("Tempo esgotado"@.len() == 14);
    assert("اكتمل"@.len() == 5);
    assert("ملغى"@.len() == 4);
    assert("تم بلوغ الحد الأقصى"@.len() == 19);
    assert("خطأ"@.len() == 3);
    assert("انتهت المهلة"@.len() == 12);
    assert("Completed"@[1] != "Cancelled"@[1]);
    assert("达到最大长度"@[0] != "遇到停止序列"@[0]);
    assert("错误"@[0] != "超时"@[0]);
    assert("達到最大長度"@[0] != "遇到停止序列"@[0]);
    assert("錯誤"@[0] != "逾時"@[0]);
    assert("정상 종료"@[0] != "시간 초과"@[0]);
    assert("Annulé"@[0] != "Erreur"@[0]);
    assert("Concluído"@[1] != "Cancelado"@[1]);
}

proof fn lemma_reason_of()
    ensures
        reason_of("end_turn"@) == StopReason::EndTurn,
        reason_of("cancelled"@) == StopReason::Cancelled,
        reason_of("max_tokens"@) == StopReason::MaxTokens,
        reason_of("stop_sequence"@) == StopReason::StopSequence,
        reason_of("error"@) == StopReason::Error,
        reason_of("timeout"@) == StopReason::Timeout,
{
    reveal_strlit("end_turn");
    reveal_strlit("cancelled");
    reveal_strlit("max_tokens");
    reveal_strlit("stop_sequence");
    reveal_strlit("error");
    reveal_strlit("timeout");
    assert("end_turn"@.len() == 8);
    assert("cancelled"@.len() == 9);
    assert("max_tokens"@.len() == 10);
    assert("stop_sequence"@.len() == 13);
    assert("error"@.len() == 5);
    assert("timeout"@.len() == 7);
    assert("end_turn"@[0] != "timeout"@[0]);
}

/// A reason that is known has words of its own in every language, but for the stop
/// sequence, which some have no words for; a reason that is not known, or that the
/// language has no words for, stands as it is.
pub proof fn lemma_reasons_are_told(word: Seq<char>, lang: Lang)
    ensures
        word != "end_turn"@ && word != "cancelled"@ && word != "max_tokens"@ && word
            != "stop_sequence"@ && word != "error"@ && word != "timeout"@ ==> localized(word, lang)
            == word,
        reason_words(StopReason::EndTurn, lang) is Some,
        reason_words(StopReason::Cancelled, lang) is Some,
        reason_words(StopReason::MaxTokens, lang) is Some,
        reason_words(StopReason::Error, lang) is Some,
        reason_words(StopReason::Timeout, lang) is Some,
        localized("end_turn"@, lang) == reason_words(StopReason::EndTurn, lang)->0,
        localized("cancelled"@, lang) == reason_words(StopReason::Cancelled, lang)->0,
        localized("max_tokens"@, lang) == reason_words(StopReason::MaxTokens, lang)->0,
        localized("error"@, lang) == reason_words(StopReason::Error, lang)->0,
        localized("timeout"@, lang) == reason_words(StopReason::Timeout, lang)->0,
        reason_words(StopReason::StopSequence, lang) is None ==> localized("stop_sequence"@, lang)
            == "stop_sequence"@,
{
    lemma_reason_of();
}

/// What each language says of each reason.
pub proof fn lemma_reasons_in_words()
    ensures
        localized("end_turn"@, Lang::En) == "Completed"@,
        localized("cancelled"@, Lang::En) == "Cancelled"@,
        localized("max_tokens"@, Lang::En) == "Max length reached"@,
        localized("stop_sequence"@, Lang::En) == "Stop sequence"@,
        localized("error"@, Lang::En) == "Error"@,
        localized("timeout"@, Lang::En) == "Timeout"@,
        localized("end_turn"@, Lang::ZhCn) == "正常结束"@,
        localized("cancelled"@, Lang::ZhCn) == "已取消"@,
        localized("max_tokens"@, Lang::ZhCn) == "达到最大长度"@,
        localized("stop_sequence"@, Lang::ZhCn) == "遇到停止序列"@,
        localized("error"@, Lang::ZhCn) == "错误"@,
        localized("timeout"@, Lang::ZhCn) == "超时"@,
        localized("end_turn"@, Lang::ZhTw) == "正常結束"@,
        localized("cancelled"@, Lang::ZhTw) == "已取消"@,
        localized("max_tokens"@, Lang::ZhTw) == "達到最大長度"@,
        localized("stop_sequence"@, Lang::ZhTw) == "遇到停止序列"@,
        localized("error"@, Lang::ZhTw) == "錯誤"@,
        localized("timeout"@, Lang::ZhTw) == "逾時"@,
        localized("end_turn"@, Lang::Ja) == "正常終了"@,
        localized("cancelled"@, Lang::Ja) == "キャンセル"@,
        localized("max_tokens"@, Lang::Ja) == "最大トークン数到達"@,
        localized("stop_sequence"@, Lang::Ja) == "停止シーケンス"@,
        localized("error"@, Lang::Ja) == "エラー"@,
        localized("timeout"@, Lang::Ja) == "タイムアウト"@,
        localized("end_turn"@, Lang::Ko) == "정상 종료"@,
        localized("cancelled"@, Lang::Ko) == "취소됨"@,
        localized("max_tokens"@, Lang::Ko) == "최대 길이 도달"@,
        localized("stop_sequence"@, Lang::Ko) == "정지 시퀀스"@,
        localized("error"@, Lang::Ko) == "오류"@,
        localized("timeout"@, Lang::Ko) == "시간 초과"@,
        localized("end_turn"@, Lang::Es) == "Finalizado"@,
        localized("cancelled"@, Lang::Es) == "Cancelado"@,
        localized("max_tokens"@, Lang::Es) == "Longitud máxima alcanzada"@,
        localized("error"@, Lang::Es) == "Error"@,
        localized("timeout"@, Lang::Es) == "Tiempo agotado"@,
        localized("end_turn"@, Lang::De) == "Abgeschlossen"@,
        localized("cancelled"@, Lang::De) == "Abgebrochen"@,
        localized("max_tokens"@, Lang::De) == "Maximale Länge erreicht"@,
        localized("error"@, Lang::De) == "Fehler"@,
        localized("timeout"@, Lang::De) == "Zeitüberschreitung"@,
        localized("end_turn"@, Lang::Fr) == "Terminé"@,
        localized("cancelled"@, Lang::Fr) == "Annulé"@,
        localized("max_tokens"@, Lang::Fr) == "Longueur maximale atteinte"@,
        localized("error"@, Lang::Fr) == "Erreur"@,
        localized("timeout"@, Lang::Fr) == "Délai dépassé"@,
        localized("end_turn"@, Lang::Pt) == "Concluído"@,
        localized("cancelled"@, Lang::Pt) == "Cancelado"@,
        localized("max_tokens"@, Lang::Pt) == "Comprimento máximo atingido"@,
        localized("error"@, Lang::Pt) == "Erro"@,
        localized("timeout"@, Lang::Pt) == "Tempo esgotado"@,
        localized("end_turn"@, Lang::Ar) == "اكتمل"@,
        localized("cancelled"@, Lang::Ar) == "ملغى"@,
        localized("max_tokens"@, Lang::Ar) == "تم بلوغ الحد الأقصى"@,
        localized("error"@, Lang::Ar) == "خطأ"@,
        localized("timeout"@, Lang::Ar) == "انتهت المهلة"@,
{
    lemma_reason_of();
}

/// What the agent wrote is sent in full where it has at most 2000 bytes, with the
/// number of tool calls behind it where there were any; of a longer text the first
/// and the last 500 characters are sent, and its length; a turn without text says
/// how many tool calls it made.
pub proof fn lemma_text_is_sent(content: Seq<char>, tools: nat, lang: Lang)
    ensures
        content.len() > 0 && utf8_len(content) <= 2000 && tools == 0 ==> completion(
            content,
            tools,
            lang,
        ) == content,
        content.len() > 0 && utf8_len(content) <= 2000 ==> content.is_prefix_of(
            completion(content, tools, lang),
        ),
        content.len() > 0 && utf8_len(content) <= 2000 && tools > 0 ==> occurs(
            completion(content, tools, lang).skip(content.len() as int),
            "["@ + decimal(tools),
        ),
        utf8_len(content) > 2000 && content.len() > 500 ==> content.take(500).is_prefix_of(
            completion(content, tools, lang),
        ) && occurs(completion(content, tools, lang), content.skip(content.len() - 500)) && occurs(
            completion(content, tools, lang),
            decimal(utf8_len(content)),
        ),
        content.len() == 0 ==> occurs(completion(content, tools, lang), decimal(tools)),
{
    let whole = completion(content, tools, lang);
    let closing = lang.either(" 次工具调用]"@, " tool calls]"@);
    if content.len() == 0 {
        lemma_occurs(whole, decimal(tools));
    } else if utf8_len(content) <= 2000 {
        if tools > 0 {
            reveal_strlit("\n\n[");
            reveal_strlit("\n\n");
            reveal_strlit("[");
            assert("\n\n["@ =~= "\n\n"@ + "["@);
            let rest = whole.skip(content.len() as int);
            assert(rest =~= "\n\n"@ + ("["@ + decimal(tools)) + closing);
            lemma_occurs(rest, "["@ + decimal(tools));
            assert(content =~= whole.take(content.len() as int));
        }
    } else if content.len() > 500 {
        let first = content.take(500);
        let last = content.skip(content.len() - 500);
        let opening = lang.either("\n\n[完整回复: "@, "\n\n[Full response: "@);
        let middle = lang.either(" 字符, "@, " chars, "@);
        let size = decimal(utf8_len(content));
        assert(first =~= whole.take(500));
        assert(whole =~= (first + "\n\n...\n\n"@) + last + (opening + size + middle + decimal(tools)
            + closing));
        lemma_occurs(whole, last);
        assert(whole =~= (first + "\n\n...\n\n"@ + last + opening) + size + (middle + decimal(tools)
            + closing));
        lemma_occurs(whole, size);
    }
}

/// Both Chinese scripts get the Chinese text, and every other language the other.
pub proof fn lemma_either(lang: Lang, chinese: Seq<char>, other: Seq<char>)
    ensures
        lang == Lang::ZhCn || lang == Lang::ZhTw ==> lang.either(chinese, other) == chinese,
        lang != Lang::ZhCn && lang != Lang::ZhTw ==> lang.either(chinese, other) == other,
{
}

} // verus!
