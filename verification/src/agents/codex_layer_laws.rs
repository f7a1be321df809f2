//! What the identities of a sampled Codex configuration cover.

use vstd::prelude::*;
use crate::agents::codex_config::CodexSelectionTarget;
use crate::agents::codex_layers::{
    effective_configuration, is_path, layer_identity, optional_text, profile_applied, read_view,
    sampled_layer, sampled_layers, sampled_overrides, scope_identity, scope_json, scope_layers,
    selection_text, text_list, CodexConfigurationScope, LayerRead, LayerView, SampleView,
};
use crate::agents::discovery::ConfigLayerV1;
use crate::digest::{digest_of, hex, hex_digit, sha256};
use crate::json::{compact_json, parsed_json, JsonView};
use crate::paths::{is_absolute, path_steps};
use crate::text::views_of;

verus! {

/// The bytes that stand for what reading a file gave.
pub open spec fn content_bytes(read: LayerRead) -> Seq<u8> {
    match read {
        Ok(Some(bytes)) => bytes@,
        _ => vstd::utf8::encode_utf8("absent-codex-layer"@),
    }
}

/// Whether what was read of a file is not the text that stands for absence.
pub open spec fn tells_absence(read: LayerRead) -> bool {
    read matches Ok(Some(bytes)) ==> bytes@ != vstd::utf8::encode_utf8("absent-codex-layer"@)
}

pub open spec fn tell_absences(reads: Seq<LayerRead>) -> bool {
    forall|i: int| 0 <= i < reads.len() ==> tells_absence(#[trigger] reads[i])
}

/// The text that a file's identity is made of.
pub open spec fn layer_text(file: LayerView, content: Seq<char>) -> Seq<char> {
    file.path + "\0"@ + content + "\0"@ + file.layer.label()
}

pub open spec fn profile_text(name: Seq<char>) -> Seq<char> {
    "profile\0"@ + name
}

/// The name of the profile that a scope selects in the user's file.
pub open spec fn profile_name(scope: CodexConfigurationScope) -> Option<Seq<char>> {
    match scope.selection {
        CodexSelectionTarget::LegacyProfile(name) => Some(name@),
        CodexSelectionTarget::Root => None,
    }
}

/// Whether the selected profile is looked up in a file.
pub open spec fn holds_profile(
    scope: CodexConfigurationScope,
    file: LayerView,
    read: LayerRead,
) -> bool {
    &&& profile_name(scope) is Some
    &&& path_steps(file.path) == path_steps(scope.user_file@)
    &&& read matches Ok(Some(_))
}

/// The texts that the identities of the first files are made of.
pub open spec fn layer_texts(
    scope: CodexConfigurationScope,
    files: Seq<LayerView>,
    reads: Seq<LayerRead>,
) -> Seq<Seq<char>>
    decreases files.len(),
{
    if files.len() == 0 {
        Seq::empty()
    } else {
        let read = reads[files.len() - 1];
        let own = layer_texts(scope, files.drop_last(), reads).push(
            layer_text(files.last(), digest_of(content_bytes(read))),
        );
        if holds_profile(scope, files.last(), read) {
            own.push(profile_text(profile_name(scope)->0))
        } else {
            own
        }
    }
}

/// The texts that the dependency identity is made of: those of the files, of the profile and of
/// the overrides.
pub open spec fn dependency_texts(
    scope: CodexConfigurationScope,
    reads: Seq<LayerRead>,
) -> Seq<Seq<char>> {
    layer_texts(scope, scope_layers(scope), reads) + views_of(scope.cli_overrides@)
}

pub open spec fn text_identity(text: Seq<char>) -> Seq<char> {
    digest_of(vstd::utf8::encode_utf8(text))
}

pub open spec fn identities(texts: Seq<Seq<char>>) -> Seq<Seq<char>> {
    texts.map_values(|text: Seq<char>| text_identity(text))
}

/// The list that the dependency identity is the digest of.
pub open spec fn dependency_list(
    scope: CodexConfigurationScope,
    reads: Seq<LayerRead>,
) -> JsonView {
    text_list(identities(dependency_texts(scope, reads)))
}

/// Whether some bytes are hashed on the way to the dependency identity.
pub open spec fn is_hashed(
    scope: CodexConfigurationScope,
    reads: Seq<LayerRead>,
    bytes: Seq<u8>,
) -> bool {
    ||| bytes == compact_json(dependency_list(scope, reads))
    ||| exists|i: int|
        0 <= i < dependency_texts(scope, reads).len() && bytes == vstd::utf8::encode_utf8(
            #[trigger] dependency_texts(scope, reads)[i],
        )
    ||| exists|i: int| 0 <= i < reads.len() && bytes == content_bytes(#[trigger] reads[i])
}

/// Whether SHA-256 tells all the bytes apart that are hashed for two samples.
pub open spec fn hashes_tell_apart(
    first: CodexConfigurationScope,
    first_reads: Seq<LayerRead>,
    second: CodexConfigurationScope,
    second_reads: Seq<LayerRead>,
) -> bool {
    forall|a: Seq<u8>, b: Seq<u8>|
        is_hashed(first, first_reads, a) && is_hashed(second, second_reads, b) && #[trigger] sha256(
            a,
        ) == #[trigger] sha256(b) ==> a == b
}

proof fn lemma_layer_dependencies(
    scope: CodexConfigurationScope,
    files: Seq<LayerView>,
    reads: Seq<LayerRead>,
)
    requires
        sampled_layers(scope, files, reads) is Ok,
        files.len() <= reads.len(),
    ensures
        ({
            let sample = sampled_layers(scope, files, reads)->Ok_0;
            &&& sample.dependencies == identities(layer_texts(scope, files, reads))
            &&& sample.profile is Some ==> exists|i: int|
                0 <= i < files.len() && holds_profile(scope, #[trigger] files[i], reads[i])
        }),
        forall|i: int| 0 <= i < files.len() ==> is_absolute((#[trigger] files[i]).path),
        forall|i: int| 0 <= i < files.len() ==> (#[trigger] reads[i]) is Ok,
    decreases files.len(),
{
    let sample = sampled_layers(scope, files, reads)->Ok_0;
    if files.len() == 0 {
        assert(sample.dependencies =~= identities(layer_texts(scope, files, reads)));
    } else {
        let init = files.drop_last();
        let file = files.last();
        let read = reads[files.len() - 1];
        let before = sampled_layers(scope, init, reads)->Ok_0;
        lemma_layer_dependencies(scope, init, reads);
        let texts = layer_texts(scope, init, reads);
        let content = digest_of(content_bytes(read));
        let own = texts.push(layer_text(file, content));
        assert(identities(own) =~= identities(texts).push(text_identity(layer_text(file, content))));
        assert(layer_identity(file, content) == text_identity(layer_text(file, content)));
        if holds_profile(scope, file, read) {
            let text = profile_text(profile_name(scope)->0);
            assert(identities(own.push(text)) =~= identities(own).push(text_identity(text)));
        }
        assert(sample.dependencies == identities(layer_texts(scope, files, reads)));
        assert forall|i: int| 0 <= i < files.len() implies is_absolute(
            (#[trigger] files[i]).path,
        ) by {
            if i < init.len() {
                assert(init[i] == files[i]);
            }
        }
        if sample.profile is Some {
            if before.profile is Some {
                let i = choose|i: int|
                    0 <= i < init.len() && holds_profile(scope, #[trigger] init[i], reads[i]);
                assert(holds_profile(scope, files[i], reads[i]));
            } else {
                assert(holds_profile(scope, files[files.len() - 1], reads[files.len() - 1]));
            }
        }
    }
}

proof fn lemma_override_dependencies(sample: SampleView, values: Seq<Seq<char>>)
    requires
        sampled_overrides(sample, values) is Some,
    ensures
        sampled_overrides(sample, values)->0.dependencies == sample.dependencies + identities(
            values,
        ),
        forall|i: int| 0 <= i < values.len() ==> !(#[trigger] values[i]).contains('\0'),
    decreases values.len(),
{
    let after = sampled_overrides(sample, values)->0;
    if values.len() == 0 {
        assert(after.dependencies =~= sample.dependencies + identities(values));
    } else {
        let init = values.drop_last();
        lemma_override_dependencies(sample, init);
        assert(values =~= init.push(values.last()));
        assert(identities(values) =~= identities(init).push(text_identity(values.last())));
        assert(after.dependencies =~= sample.dependencies + identities(values));
        assert forall|i: int| 0 <= i < values.len() implies !(#[trigger] values[i]).contains(
            '\0',
        ) by {
            if i < init.len() {
                assert(init[i] == values[i]);
            }
        }
    }
}

/// What a sampled scope is identified by.
pub(crate) proof fn lemma_dependency_texts(scope: CodexConfigurationScope, reads: Seq<LayerRead>)
    requires
        effective_configuration(scope, reads) is Ok,
        reads.len() == scope_layers(scope).len(),
    ensures
        ({
            let sample = sampled_layers(scope, scope_layers(scope), reads)->Ok_0;
            let values = views_of(scope.cli_overrides@);
            sampled_overrides(profile_applied(sample)->0, values)->0.dependencies == identities(
                dependency_texts(scope, reads),
            )
        }),
        forall|i: int|
            0 <= i < scope_layers(scope).len() ==> is_absolute(
                (#[trigger] scope_layers(scope)[i]).path,
            ),
        forall|i: int| 0 <= i < reads.len() ==> (#[trigger] reads[i]) is Ok,
        forall|i: int|
            0 <= i < views_of(scope.cli_overrides@).len() ==> !(#[trigger] views_of(
                scope.cli_overrides@,
            )[i]).contains('\0'),
        profile_name(scope) is Some ==> exists|i: int|
            0 <= i < scope_layers(scope).len() && holds_profile(
                scope,
                #[trigger] scope_layers(scope)[i],
                reads[i],
            ),
{
    let files = scope_layers(scope);
    let values = views_of(scope.cli_overrides@);
    lemma_layer_dependencies(scope, files, reads);
    let sample = sampled_layers(scope, files, reads)->Ok_0;
    let applied = profile_applied(sample)->0;
    lemma_override_dependencies(applied, values);
    assert(identities(dependency_texts(scope, reads)) =~= identities(
        layer_texts(scope, files, reads),
    ) + identities(values));
}

proof fn lemma_hex_digit(a: u8, b: u8)
    requires
        a < 16,
        b < 16,
        hex_digit(a) == hex_digit(b),
    ensures
        a == b,
{
}

proof fn lemma_hex(a: Seq<u8>, b: Seq<u8>)
    requires
        hex(a) == hex(b),
    ensures
        a == b,
    decreases a.len(),
{
    lemma_hex_len(a);
    lemma_hex_len(b);
    if a.len() > 0 {
        let x = hex(a);
        let y = hex(b);
        assert(x.drop_last().drop_last() =~= hex(a.drop_last()));
        assert(y.drop_last().drop_last() =~= hex(b.drop_last()));
        lemma_hex(a.drop_last(), b.drop_last());
        assert(x.last() == hex_digit(a.last() % 16) && y.last() == hex_digit(b.last() % 16));
        assert(x.drop_last().last() == hex_digit(a.last() / 16));
        assert(y.drop_last().last() == hex_digit(b.last() / 16));
        lemma_hex_digit(a.last() % 16, b.last() % 16);
        lemma_hex_digit(a.last() / 16, b.last() / 16);
        assert(a.last() == b.last());
        assert(a =~= a.drop_last().push(a.last()));
        assert(b =~= b.drop_last().push(b.last()));
    } else {
        assert(a =~= b);
    }
}

proof fn lemma_hex_len(bytes: Seq<u8>)
    ensures
        hex(bytes).len() == 2 * bytes.len(),
        !hex(bytes).contains('\0'),
    decreases bytes.len(),
{
    if bytes.len() > 0 {
        lemma_hex_len(bytes.drop_last());
        let before = hex(bytes.drop_last());
        assert forall|i: int| 0 <= i < hex(bytes).len() implies hex(bytes)[i] != '\0' by {
            if i < before.len() {
                assert(hex(bytes)[i] == before[i]);
                assert(before.contains(before[i]));
            }
        }
    }
}

/// Equal digests are of bytes of equal hashes, and hold no null character.
proof fn lemma_digests(a: Seq<u8>, b: Seq<u8>)
    ensures
        digest_of(a) == digest_of(b) ==> sha256(a) == sha256(b),
        !digest_of(a).contains('\0'),
{
    reveal_strlit("sha256:");
    lemma_hex_len(sha256(a));
    if digest_of(a) == digest_of(b) {
        assert(hex(sha256(a)) =~= digest_of(a).skip(7));
        assert(hex(sha256(b)) =~= digest_of(b).skip(7));
        lemma_hex(sha256(a), sha256(b));
    }
    assert forall|i: int| 0 <= i < digest_of(a).len() implies digest_of(a)[i] != '\0' by {
        if i >= 7 {
            assert(digest_of(a)[i] == hex(sha256(a))[i - 7]);
            assert(hex(sha256(a)).contains(hex(sha256(a))[i - 7]));
        }
    }
}

/// What stands behind the last null character decides a text's two parts.
proof fn lemma_last_part(a: Seq<char>, b: Seq<char>, x: Seq<char>, y: Seq<char>)
    requires
        a + "\0"@ + x == b + "\0"@ + y,
        !x.contains('\0'),
        !y.contains('\0'),
    ensures
        a == b,
        x == y,
{
    reveal_strlit("\0");
    let s = a + "\0"@ + x;
    let t = b + "\0"@ + y;
    assert("\0"@.len() == 1);
    assert(s.len() == a.len() + 1 + x.len());
    assert(t.len() == b.len() + 1 + y.len());
    assert(s[a.len() as int] == '\0');
    assert(t[b.len() as int] == '\0');
    if a.len() < b.len() {
        assert(s[b.len() as int] == x[b.len() - a.len() - 1]);
        assert(x.contains(x[b.len() - a.len() - 1]));
    }
    if b.len() < a.len() {
        assert(t[a.len() as int] == y[a.len() - b.len() - 1]);
        assert(y.contains(y[a.len() - b.len() - 1]));
    }
    assert(a =~= s.take(a.len() as int));
    assert(b =~= t.take(b.len() as int));
    assert(x =~= s.skip(a.len() as int + 1));
    assert(y =~= t.skip(b.len() as int + 1));
}

proof fn lemma_labels(a: ConfigLayerV1, b: ConfigLayerV1)
    ensures
        !a.label().contains('\0'),
        a.label() == b.label() ==> a == b,
{
    reveal_strlit("Process");
    reveal_strlit("Launch");
    reveal_strlit("Project");
    reveal_strlit("User");
    reveal_strlit("Managed");
    assert("Process"@.len() == 7 && "Launch"@.len() == 6 && "Project"@.len() == 7);
    assert("User"@.len() == 4 && "Managed"@.len() == 7);
    assert("Process"@[3] != "Project"@[3]);
    assert("Process"@[0] != "Managed"@[0]);
    assert("Project"@[0] != "Managed"@[0]);
    assert forall|i: int| 0 <= i < a.label().len() implies a.label()[i] != '\0' by {}
}

/// A file's text tells its path, its content and its layer, and is no profile's text.
proof fn lemma_layer_text(a: LayerView, b: LayerView, x: Seq<u8>, y: Seq<u8>, name: Seq<char>)
    requires
        is_absolute(a.path),
    ensures
        layer_text(a, digest_of(x)) == layer_text(b, digest_of(y)) ==> a == b && sha256(x)
            == sha256(y),
        layer_text(a, digest_of(x)) != profile_text(name),
        layer_text(a, digest_of(x)).contains('\0'),
{
    reveal_strlit("\0");
    reveal_strlit("profile\0");
    let s = layer_text(a, digest_of(x));
    assert(s[0] == '/');
    assert(profile_text(name)[0] == 'p');
    assert(s[a.path.len() as int] == '\0');
    lemma_digests(x, y);
    lemma_digests(y, x);
    lemma_labels(a.layer, b.layer);
    lemma_labels(b.layer, a.layer);
    if s == layer_text(b, digest_of(y)) {
        lemma_last_part(
            a.path + "\0"@ + digest_of(x),
            b.path + "\0"@ + digest_of(y),
            a.layer.label(),
            b.layer.label(),
        );
        lemma_last_part(a.path, b.path, digest_of(x), digest_of(y));
    }
}

proof fn lemma_profile_text(a: Seq<char>, b: Seq<char>)
    ensures
        profile_text(a) == profile_text(b) ==> a == b,
        profile_text(a).contains('\0'),
{
    reveal_strlit("profile\0");
    assert(profile_text(a)[7] == '\0');
    assert(profile_text(a).skip(8) =~= a);
    assert(profile_text(b).skip(8) =~= b);
}

/// Every text of a file or a profile holds a null character.
proof fn lemma_layer_texts_marked(
    scope: CodexConfigurationScope,
    files: Seq<LayerView>,
    reads: Seq<LayerRead>,
)
    requires
        forall|i: int| 0 <= i < files.len() ==> is_absolute((#[trigger] files[i]).path),
    ensures
        forall|i: int|
            0 <= i < layer_texts(scope, files, reads).len() ==> (#[trigger] layer_texts(
                scope,
                files,
                reads,
            )[i]).contains('\0'),
    decreases files.len(),
{
    if files.len() > 0 {
        let init = files.drop_last();
        assert forall|i: int| 0 <= i < init.len() implies is_absolute(
            (#[trigger] init[i]).path,
        ) by {
            assert(init[i] == files[i]);
        }
        lemma_layer_texts_marked(scope, init, reads);
        assert(is_absolute(files[files.len() - 1].path));
        let name = match profile_name(scope) {
            Some(name) => name,
            None => Seq::empty(),
        };
        let bytes = content_bytes(reads[files.len() - 1]);
        lemma_layer_text(files.last(), files.last(), bytes, bytes, name);
        lemma_profile_text(name, name);
        let texts = layer_texts(scope, init, reads);
        assert forall|i: int| 0 <= i < layer_texts(scope, files, reads).len() implies (
        #[trigger] layer_texts(scope, files, reads)[i]).contains('\0') by {
            if i < texts.len() {
                assert(layer_texts(scope, files, reads)[i] == texts[i]);
            }
        }
    }
}

/// Files whose texts are the same are the same, with contents of the same hashes and the same
/// profile looked up in them.
proof fn lemma_same_layers(
    first: CodexConfigurationScope,
    first_files: Seq<LayerView>,
    first_reads: Seq<LayerRead>,
    second: CodexConfigurationScope,
    second_files: Seq<LayerView>,
    second_reads: Seq<LayerRead>,
)
    requires
        forall|i: int| 0 <= i < first_files.len() ==> is_absolute((#[trigger] first_files[i]).path),
        forall|i: int|
            0 <= i < second_files.len() ==> is_absolute((#[trigger] second_files[i]).path),
        layer_texts(first, first_files, first_reads) == layer_texts(
            second,
            second_files,
            second_reads,
        ),
    ensures
        first_files == second_files,
        forall|i: int|
            0 <= i < first_files.len() ==> sha256(content_bytes(#[trigger] first_reads[i]))
                == sha256(content_bytes(second_reads[i])),
        forall|i: int|
            0 <= i < first_files.len() ==> holds_profile(
                first,
                #[trigger] first_files[i],
                first_reads[i],
            ) == holds_profile(second, second_files[i], second_reads[i]),
        (exists|i: int|
            0 <= i < first_files.len() && holds_profile(
                first,
                #[trigger] first_files[i],
                first_reads[i],
            )) ==> profile_name(first) == profile_name(second),
    decreases first_files.len(),
{
    let texts = layer_texts(first, first_files, first_reads);
    if first_files.len() == 0 || second_files.len() == 0 {
        assert(texts.len() == 0);
        assert(first_files =~= second_files);
    } else {
        let a = first_files.last();
        let b = second_files.last();
        let m = first_files.len() - 1;
        let n = second_files.len() - 1;
        assert(a == first_files[m] && b == second_files[n]);
        let read = first_reads[m];
        let other = second_reads[n];
        let x = content_bytes(read);
        let y = content_bytes(other);
        let inner = layer_texts(first, first_files.drop_last(), first_reads);
        let outer = layer_texts(second, second_files.drop_last(), second_reads);
        let name = match profile_name(first) {
            Some(name) => name,
            None => Seq::empty(),
        };
        let other_name = match profile_name(second) {
            Some(name) => name,
            None => Seq::empty(),
        };
        lemma_layer_text(a, b, x, y, other_name);
        lemma_layer_text(b, a, y, x, name);
        lemma_profile_text(name, other_name);
        let held = holds_profile(first, a, read);
        assert(texts.last() == if held {
            profile_text(name)
        } else {
            layer_text(a, digest_of(x))
        });
        assert(texts.last() == if holds_profile(second, b, other) {
            profile_text(other_name)
        } else {
            layer_text(b, digest_of(y))
        });
        assert(held == holds_profile(second, b, other));
        let rest = if held {
            texts.drop_last()
        } else {
            texts
        };
        assert(rest =~= inner.push(layer_text(a, digest_of(x))));
        assert(rest =~= outer.push(layer_text(b, digest_of(y))));
        assert(rest.last() == layer_text(a, digest_of(x)));
        assert(rest.last() == layer_text(b, digest_of(y)));
        assert(rest.drop_last() =~= inner);
        assert(rest.drop_last() =~= outer);
        assert forall|i: int| 0 <= i < m implies is_absolute(
            (#[trigger] first_files.drop_last()[i]).path,
        ) by {
            assert(first_files.drop_last()[i] == first_files[i]);
        }
        assert forall|i: int| 0 <= i < n implies is_absolute(
            (#[trigger] second_files.drop_last()[i]).path,
        ) by {
            assert(second_files.drop_last()[i] == second_files[i]);
        }
        lemma_same_layers(
            first,
            first_files.drop_last(),
            first_reads,
            second,
            second_files.drop_last(),
            second_reads,
        );
        assert(m == n);
        assert(first_files =~= first_files.drop_last().push(a));
        assert(second_files =~= second_files.drop_last().push(b));
        assert forall|i: int| 0 <= i < first_files.len() implies holds_profile(
            first,
            #[trigger] first_files[i],
            first_reads[i],
        ) == holds_profile(second, second_files[i], second_reads[i]) by {
            if i < m {
                assert(first_files.drop_last()[i] == first_files[i]);
                assert(second_files.drop_last()[i] == second_files[i]);
            }
        }
        if exists|i: int|
            0 <= i < first_files.len() && holds_profile(
                first,
                #[trigger] first_files[i],
                first_reads[i],
            ) {
            let i = choose|i: int|
                0 <= i < first_files.len() && holds_profile(
                    first,
                    #[trigger] first_files[i],
                    first_reads[i],
                );
            if i < m {
                assert(holds_profile(first, first_files.drop_last()[i], first_reads[i]));
            }
        }
    }
}

proof fn lemma_split_texts(a: Seq<Seq<char>>, b: Seq<Seq<char>>, x: Seq<Seq<char>>, y: Seq<Seq<char>>)
    requires
        a + x == b + y,
        forall|i: int| 0 <= i < a.len() ==> (#[trigger] a[i]).contains('\0'),
        forall|i: int| 0 <= i < b.len() ==> (#[trigger] b[i]).contains('\0'),
        forall|i: int| 0 <= i < x.len() ==> !(#[trigger] x[i]).contains('\0'),
        forall|i: int| 0 <= i < y.len() ==> !(#[trigger] y[i]).contains('\0'),
    ensures
        a == b,
        x == y,
{
    let s = a + x;
    let t = b + y;
    if a.len() < b.len() {
        assert(s[a.len() as int] == x[0]);
        assert(t[a.len() as int] == b[a.len() as int]);
    }
    if b.len() < a.len() {
        assert(t[b.len() as int] == y[0]);
        assert(s[b.len() as int] == a[b.len() as int]);
    }
    assert(a =~= s.take(a.len() as int));
    assert(b =~= t.take(b.len() as int));
    assert(x =~= s.skip(a.len() as int));
    assert(y =~= t.skip(b.len() as int));
}

/// The dependency identity covers every input of a sample: every path and its layer, every byte
/// and every absence, the selected profile and every override. Two samples with the same identity
/// are of the same files with the same contents, the same profile and the same overrides, unless
/// SHA-256 gives two of the texts that are hashed for them the same hash. That the lists are read
/// back as they are written, and that no file holds the text that stands for absence, is what
/// sampling says of them.
pub proof fn dependency_identity_covers_every_input(
    first: CodexConfigurationScope,
    first_reads: Seq<LayerRead>,
    second: CodexConfigurationScope,
    second_reads: Seq<LayerRead>,
)
    requires
        first_reads.len() == scope_layers(first).len(),
        second_reads.len() == scope_layers(second).len(),
        effective_configuration(first, first_reads) is Ok,
        effective_configuration(second, second_reads) is Ok,
        reads_back(dependency_list(first, first_reads)),
        reads_back(dependency_list(second, second_reads)),
        tell_absences(first_reads),
        tell_absences(second_reads),
        hashes_tell_apart(first, first_reads, second, second_reads),
        effective_configuration(first, first_reads)->Ok_0.dependency_digest
            == effective_configuration(second, second_reads)->Ok_0.dependency_digest,
    ensures
        scope_layers(first) == scope_layers(second),
        forall|i: int|
            0 <= i < first_reads.len() ==> read_view(#[trigger] first_reads[i]) == read_view(
                second_reads[i],
            ),
        profile_name(first) == profile_name(second),
        views_of(first.cli_overrides@) == views_of(second.cli_overrides@),
{
    let a = dependency_texts(first, first_reads);
    let b = dependency_texts(second, second_reads);
    let list = dependency_list(first, first_reads);
    let other = dependency_list(second, second_reads);
    lemma_dependency_texts(first, first_reads);
    lemma_dependency_texts(second, second_reads);
    lemma_digests(compact_json(list), compact_json(other));
    assert(is_hashed(first, first_reads, compact_json(list)));
    assert(is_hashed(second, second_reads, compact_json(other)));
    assert(compact_json(list) == compact_json(other));
    assert(list == other);
    lemma_text_lists(identities(a), identities(b));
    assert(identities(a).len() == a.len() && identities(b).len() == b.len());
    assert forall|i: int| 0 <= i < a.len() implies a[i] == b[i] by {
        let x = vstd::utf8::encode_utf8(a[i]);
        let y = vstd::utf8::encode_utf8(b[i]);
        assert(identities(a)[i] == digest_of(x));
        assert(identities(b)[i] == digest_of(y));
        lemma_digests(x, y);
        assert(is_hashed(first, first_reads, x));
        assert(is_hashed(second, second_reads, y));
        vstd::utf8::encode_utf8_decode_utf8(a[i]);
        vstd::utf8::encode_utf8_decode_utf8(b[i]);
    }
    assert(a =~= b);
    lemma_layer_texts_marked(first, scope_layers(first), first_reads);
    lemma_layer_texts_marked(second, scope_layers(second), second_reads);
    lemma_split_texts(
        layer_texts(first, scope_layers(first), first_reads),
        layer_texts(second, scope_layers(second), second_reads),
        views_of(first.cli_overrides@),
        views_of(second.cli_overrides@),
    );
    lemma_same_layers(
        first,
        scope_layers(first),
        first_reads,
        second,
        scope_layers(second),
        second_reads,
    );
    assert forall|i: int| 0 <= i < first_reads.len() implies read_view(
        #[trigger] first_reads[i],
    ) == read_view(second_reads[i]) by {
        let x = content_bytes(first_reads[i]);
        let y = content_bytes(second_reads[i]);
        assert(is_hashed(first, first_reads, x));
        assert(is_hashed(second, second_reads, y));
        assert(sha256(x) == sha256(y));
        assert(tells_absence(first_reads[i]) && tells_absence(second_reads[i]));
        assert(first_reads[i] is Ok && second_reads[i] is Ok);
    }
    if profile_name(first) is None && profile_name(second) is Some {
        let i = choose|i: int|
            0 <= i < scope_layers(second).len() && holds_profile(
                second,
                #[trigger] scope_layers(second)[i],
                second_reads[i],
            );
        assert(holds_profile(first, scope_layers(first)[i], first_reads[i]));
    }
}

proof fn lemma_text_lists(a: Seq<Seq<char>>, b: Seq<Seq<char>>)
    requires
        text_list(a) == text_list(b),
    ensures
        a == b,
{
    let x = text_list(a)->Array_0;
    let y = text_list(b)->Array_0;
    assert(x.len() == a.len() && y.len() == b.len());
    assert forall|i: int| 0 <= i < a.len() implies a[i] == b[i] by {
        assert(x[i] == JsonView::Str(a[i]));
        assert(y[i] == JsonView::Str(b[i]));
    }
    assert(a =~= b);
}

/// Whether two scopes name the same files, profile and overrides in the same home.
pub open spec fn same_scope(a: CodexConfigurationScope, b: CodexConfigurationScope) -> bool {
    &&& a.codex_home@ == b.codex_home@
    &&& a.user_file@ == b.user_file@
    &&& optional_text(a.system_file) == optional_text(b.system_file)
    &&& views_of(a.trusted_project_files@) == views_of(b.trusted_project_files@)
    &&& optional_text(a.selected_profile_file) == optional_text(b.selected_profile_file)
    &&& profile_name(a) == profile_name(b)
    &&& views_of(a.cli_overrides@) == views_of(b.cli_overrides@)
}

proof fn lemma_same_files(a: CodexConfigurationScope, b: CodexConfigurationScope)
    requires
        same_scope(a, b),
    ensures
        scope_layers(a) == scope_layers(b),
{
    let x = a.trusted_project_files@;
    let y = b.trusted_project_files@;
    let to_layer = |path: String| LayerView { path: path@, layer: ConfigLayerV1::Project };
    assert(views_of(x).len() == x.len() && views_of(y).len() == y.len());
    assert forall|i: int| 0 <= i < x.len() implies x.map_values(to_layer)[i] == y.map_values(
        to_layer,
    )[i] by {
        assert(views_of(x)[i] == x[i]@);
        assert(views_of(y)[i] == y[i]@);
    }
    assert(x.map_values(to_layer) =~= y.map_values(to_layer));
    assert(scope_layers(a) =~= scope_layers(b));
}

proof fn lemma_same_sample(
    a: CodexConfigurationScope,
    b: CodexConfigurationScope,
    files: Seq<LayerView>,
    first: Seq<LayerRead>,
    second: Seq<LayerRead>,
)
    requires
        same_scope(a, b),
        files.len() <= first.len(),
        first.len() == second.len(),
        forall|i: int|
            0 <= i < first.len() ==> read_view(#[trigger] first[i]) == read_view(second[i]),
    ensures
        sampled_layers(a, files, first) == sampled_layers(b, files, second),
    decreases files.len(),
{
    if files.len() > 0 {
        lemma_same_sample(a, b, files.drop_last(), first, second);
        let file = files.last();
        let at = files.len() - 1;
        assert(read_view(first[at]) == read_view(second[at]));
        assert(is_path(file.path, a.selected_profile_file) == is_path(
            file.path,
            b.selected_profile_file,
        ));
        if let Ok(sample) = sampled_layers(a, files.drop_last(), first) {
            assert(sampled_layer(sample, a, file, read_view(first[at])) == sampled_layer(
                sample,
                b,
                file,
                read_view(second[at]),
            ));
        }
    }
}

/// Sampling the same scope again, with nothing changed in its files, comes to the same: the same
/// settings, the same identities, or the same failure.
pub proof fn unchanged_inputs_keep_the_identities(
    a: CodexConfigurationScope,
    b: CodexConfigurationScope,
    first: Seq<LayerRead>,
    second: Seq<LayerRead>,
)
    requires
        same_scope(a, b),
        first.len() == scope_layers(a).len(),
        first.len() == second.len(),
        forall|i: int|
            0 <= i < first.len() ==> read_view(#[trigger] first[i]) == read_view(second[i]),
    ensures
        effective_configuration(a, first) == effective_configuration(b, second),
{
    lemma_same_files(a, b);
    lemma_same_sample(a, b, scope_layers(a), first, second);
    assert(views_of(a.cli_overrides@).len() == a.cli_overrides@.len());
    assert(views_of(b.cli_overrides@).len() == b.cli_overrides@.len());
    assert(views_of(a.trusted_project_files@).len() == a.trusted_project_files@.len());
    assert(views_of(b.trusted_project_files@).len() == b.trusted_project_files@.len());
    assert(scope_json(a) == scope_json(b));
}

/// Whether a value is read back as it is written.
pub open spec fn reads_back(json: JsonView) -> bool {
    parsed_json(compact_json(json)) == Some(json)
}

/// Different scopes are hashed from different bytes: two scopes with the same context identity
/// have the same home, files, selection and overrides, unless SHA-256 gives the bytes that are
/// hashed for them the same hash. A selection counts as it is printed.
pub proof fn different_scopes_are_hashed_from_different_bytes(
    a: CodexConfigurationScope,
    b: CodexConfigurationScope,
)
    requires
        scope_identity(a) == scope_identity(b),
        reads_back(scope_json(a)),
        reads_back(scope_json(b)),
        reads_back(text_list(views_of(a.cli_overrides@))),
        reads_back(text_list(views_of(b.cli_overrides@))),
        sha256(compact_json(scope_json(a))) == sha256(compact_json(scope_json(b)))
            ==> compact_json(scope_json(a)) == compact_json(scope_json(b)),
        ({
            let x = compact_json(text_list(views_of(a.cli_overrides@)));
            let y = compact_json(text_list(views_of(b.cli_overrides@)));
            sha256(x) == sha256(y) ==> x == y
        }),
    ensures
        a.codex_home@ == b.codex_home@,
        a.user_file@ == b.user_file@,
        optional_text(a.system_file) == optional_text(b.system_file),
        views_of(a.trusted_project_files@) == views_of(b.trusted_project_files@),
        optional_text(a.selected_profile_file) == optional_text(b.selected_profile_file),
        selection_text(a.selection) == selection_text(b.selection),
        views_of(a.cli_overrides@) == views_of(b.cli_overrides@),
{
    lemma_digests(compact_json(scope_json(a)), compact_json(scope_json(b)));
    let x = scope_json(a)->Array_0;
    let y = scope_json(b)->Array_0;
    assert(scope_json(a) == scope_json(b));
    assert(x[1] == JsonView::Str(a.codex_home@) && y[1] == JsonView::Str(b.codex_home@));
    assert(x[2] == JsonView::Str(a.user_file@) && y[2] == JsonView::Str(b.user_file@));
    assert(x[3] == optional_text(a.system_file) && y[3] == optional_text(b.system_file));
    assert(x[4] == text_list(views_of(a.trusted_project_files@)));
    assert(y[4] == text_list(views_of(b.trusted_project_files@)));
    lemma_text_lists(views_of(a.trusted_project_files@), views_of(b.trusted_project_files@));
    assert(x[5] == optional_text(a.selected_profile_file));
    assert(y[5] == optional_text(b.selected_profile_file));
    assert(x[6] == JsonView::Str(selection_text(a.selection)));
    assert(y[6] == JsonView::Str(selection_text(b.selection)));
    let p = text_list(views_of(a.cli_overrides@));
    let q = text_list(views_of(b.cli_overrides@));
    assert(x[7] == JsonView::Str(crate::json::canonical_digest_of(p)));
    assert(y[7] == JsonView::Str(crate::json::canonical_digest_of(q)));
    lemma_digests(compact_json(p), compact_json(q));
    lemma_text_lists(views_of(a.cli_overrides@), views_of(b.cli_overrides@));
}

} // verus!
