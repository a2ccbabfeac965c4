//! The attachment backend's rules: what may be uploaded, under which name,
//! and what location a response gives.

use vstd::prelude::*;
use vstd::string::StringExecFns;
use crate::block::Block;
use crate::error::Error;
use crate::hash::hex_encode;
use crate::storage::{Location, StorageMetadata, StorageTier};

verus! {

/// One attachment of a webhook response.
#[derive(Clone, Debug)]
pub struct Attachment {
    /// Identifier of the attachment.
    pub id: String,
    /// Name of the attached file.
    pub filename: String,
    /// Size of the attached file in bytes.
    pub size: usize,
    /// Permanent URL of the attached file.
    pub url: String,
    /// Proxy URL of the attached file.
    pub proxy_url: String,
}

/// A webhook response: the message and its attachments.
#[derive(Clone, Debug)]
pub struct WebhookResponse {
    /// Identifier of the message.
    pub id: String,
    /// Attachments of the message.
    pub attachments: Vec<Attachment>,
}

/// A store of blocks as attachments of webhook messages.
#[derive(Clone, Debug)]
pub struct DiscordBackend {
    /// The webhook's URL.
    pub webhook_url: String,
    /// Largest number of bytes that one upload may carry.
    pub max_file_size: usize,
}

impl DiscordBackend {
    /// The backend's rules for a webhook, with a ceiling of 25 mebibytes
    /// an upload.
    pub fn new(webhook_url: String) -> (backend: DiscordBackend)
        ensures
            backend.webhook_url == webhook_url,
            backend.max_file_size == 26214400,
    {
        DiscordBackend { webhook_url, max_file_size: 26214400 }
    }

    /// The same rules with another ceiling.
    pub fn with_max_size(self, max_size: usize) -> (backend: DiscordBackend)
        ensures
            backend.webhook_url == self.webhook_url,
            backend.max_file_size == max_size,
    {
        DiscordBackend { webhook_url: self.webhook_url, max_file_size: max_size }
    }

    /// The platform name: `discord`.
    pub fn name(&self) -> (name: &'static str)
        ensures
            name@ == "discord"@,
    {
        "discord"
    }

    /// The latency class: warm.
    pub fn tier(&self) -> (tier: StorageTier)
        ensures
            tier == StorageTier::Warm,
    {
        StorageTier::Warm
    }

    /// The per-request timeout in seconds.
    pub fn timeout_seconds(&self) -> (seconds: u64)
        ensures
            seconds == 300,
    {
        300
    }

    /// Whether a block may be uploaded: fails with `StorageLimit` exactly
    /// if it is larger than the ceiling.
    pub fn check_size(&self, block: &Block) -> (r: Result<(), Error>)
        ensures
            match r {
                Ok(_) => block.data@.len() <= self.max_file_size,
                Err(e) => e == Error::StorageLimit && block.data@.len() > self.max_file_size,
            },
    {
        if block.data.len() > self.max_file_size {
            Err(Error::StorageLimit)
        } else {
            Ok(())
        }
    }

    /// The name under which a block is attached: its fingerprint in hex,
    /// then `.bin`.
    pub fn upload_filename(block: &Block) -> (name: String)
        ensures
            name@ == hex_encode(block.hash@) + ".bin"@,
    {
        block.hash.to_hex().concat(".bin")
    }

    /// The text that goes with an attachment: `ISG Block: `, then the
    /// name of the attached file.
    pub fn upload_content(filename: &str) -> (content: String)
        ensures
            content@ == "ISG Block: "@ + filename@,
    {
        "ISG Block: ".to_owned().concat(filename)
    }

    /// The location that a response gives: identified by the URL of the
    /// first attachment, which is also its public URL; as large as that
    /// attachment; with the identifiers of the message and the attachment
    /// and the proxy URL as extra data. Fails with `StorageNetwork` where
    /// the response has no attachment.
    pub fn location_from_response(response: &WebhookResponse, now: i64) -> (r: Result<
        Location,
        Error,
    >)
        ensures
            match r {
                Ok(location) => {
                    &&& response.attachments@.len() >= 1
                    &&& location@.platform == "discord"@
                    &&& location@.identifier == response.attachments@[0].url@
                    &&& location@.metadata.uploaded_at == now
                    &&& location@.metadata.url == Some(response.attachments@[0].url@)
                    &&& location@.metadata.stored_size == response.attachments@[0].size
                    &&& location@.metadata.extra == seq![
                        ("message_id"@, response.id@),
                        ("attachment_id"@, response.attachments@[0].id@),
                        ("proxy_url"@, response.attachments@[0].proxy_url@),
                    ]
                },
                Err(e) => e == Error::StorageNetwork && response.attachments@.len() == 0,
            },
    {
        if response.attachments.len() == 0 {
            return Err(Error::StorageNetwork);
        }
        let attachment = &response.attachments[0];
        let mut extra: Vec<(String, String)> = Vec::new();
        extra.push(("message_id".to_owned(), response.id.clone()));
        extra.push(("attachment_id".to_owned(), attachment.id.clone()));
        extra.push(("proxy_url".to_owned(), attachment.proxy_url.clone()));
        let location = Location {
            platform: "discord".to_owned(),
            identifier: attachment.url.clone(),
            metadata: StorageMetadata {
                uploaded_at: now,
                url: Some(attachment.url.clone()),
                stored_size: attachment.size,
                extra,
            },
        };
        assert(location@.metadata.extra =~= seq![
            ("message_id"@, response.id@),
            ("attachment_id"@, response.attachments@[0].id@),
            ("proxy_url"@, response.attachments@[0].proxy_url@),
        ]);
        Ok(location)
    }

    /// Deleting is not possible through a webhook: nothing happens, and
    /// that is no failure.
    pub fn delete(&self, location: &Location) -> (r: Result<(), Error>)
        ensures
            r is Ok,
    {
        Ok(())
    }

    /// Listing is not possible through a webhook: always fails with
    /// `StorageUnsupported`.
    pub fn list(&self) -> (r: Result<Vec<Location>, Error>)
        ensures
            r is Err,
            r->Err_0 == Error::StorageUnsupported,
    {
        Err(Error::StorageUnsupported)
    }
}

} // verus!
