//! Data model of the remote messaging API, as plain values.
//!
//! These mirror the wire objects the bot works with. Decoding from and
//! encoding to the wire format is the transport's business; the core only
//! reads and builds these values.

use vstd::prelude::*;

verus! {

/// The uniform envelope every remote call response decodes to.
///
/// `ok == true` means `result` carries the payload; otherwise `description`,
/// when present, is the only diagnostic signal.
pub struct ApiResponse<T> {
    pub ok: bool,
    pub result: T,
    pub description: Option<String>,
}

/// One inbound item from the remote system.
#[derive(Clone, Debug)]
pub struct Update {
    pub update_id: i64,
    pub message: Option<Message>,
    pub edited_message: Option<Message>,
    pub callback_query: Option<CallbackQuery>,
}

/// A chat message.
#[derive(Clone, Debug)]
pub struct Message {
    pub message_id: i64,
    pub text: Option<String>,
    pub chat: Chat,
    pub from: Option<User>,
    pub contact: Option<Contact>,
}

/// The conversation a message belongs to.
#[derive(Clone, Debug)]
pub struct Chat {
    pub id: i64,
    pub kind: Option<String>,
    pub username: Option<String>,
    pub first_name: Option<String>,
    pub last_name: Option<String>,
}

/// The account a message came from.
#[derive(Clone, Debug)]
pub struct User {
    pub id: i64,
    pub is_bot: bool,
    pub first_name: String,
    pub username: Option<String>,
}

/// A shared contact card.
#[derive(Clone, Debug)]
pub struct Contact {
    pub phone_number: String,
    pub first_name: String,
    pub last_name: Option<String>,
    pub user_id: Option<i64>,
    pub vcard: Option<String>,
}

/// A button press on an inline keyboard.
#[derive(Clone, Debug)]
pub struct CallbackQuery {
    pub id: String,
    pub from: User,
    pub message: Option<Message>,
    pub data: Option<String>,
}

/// A file stored by the remote service.
#[derive(Clone, Debug)]
pub struct File {
    pub file_id: String,
    pub file_unique_id: String,
    pub file_size: Option<u64>,
    pub file_path: Option<String>,
}

/// One available size of a photo.
#[derive(Clone, Debug)]
pub struct PhotoSize {
    pub file_id: String,
    pub file_unique_id: String,
    pub width: Option<u32>,
    pub height: Option<u32>,
    pub file_size: Option<u64>,
}

/// A user's profile photos, largest collection first.
#[derive(Clone, Debug)]
pub struct UserProfilePhotos {
    pub total_count: u64,
    pub photos: Vec<Vec<PhotoSize>>,
}

/// One key of a custom reply keyboard.
#[derive(Clone, Debug)]
pub struct KeyboardButton {
    pub text: String,
    pub request_contact: Option<bool>,
    pub request_location: Option<bool>,
}

/// A custom reply keyboard shown under the input field.
#[derive(Clone, Debug)]
pub struct ReplyKeyboardMarkup {
    pub keyboard: Vec<Vec<KeyboardButton>>,
    pub one_time_keyboard: Option<bool>,
    pub resize_keyboard: Option<bool>,
}

/// One button of an inline keyboard.
#[derive(Clone, Debug)]
pub struct InlineKeyboardButton {
    pub text: String,
    pub callback_data: Option<String>,
    pub url: Option<String>,
}

/// An inline keyboard attached to a message.
#[derive(Clone, Debug)]
pub struct InlineKeyboardMarkup {
    pub inline_keyboard: Vec<Vec<InlineKeyboardButton>>,
}

/// Either kind of keyboard a message can carry.
#[derive(Clone, Debug)]
pub enum ReplyMarkup {
    ReplyKeyboard(ReplyKeyboardMarkup),
    InlineKeyboard(InlineKeyboardMarkup),
}

} // verus!
